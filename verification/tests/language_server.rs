use helix_term::collections::IdMap;
use helix_term::effect::dap::StackFrame;
use helix_term::effect::language_server::actions::{
    apply_code_action, apply_execute_lsp_command, apply_rename_edit, apply_resolved_code_lens,
    apply_resolved_document_link, completed_code_action, no_signature_help, rename_failed,
    request_apply_code_action, request_signature_help, select_ranges,
    signature_help_trigger_character, CodeActionEffect, CodeActionItem, CodeActionStep, FollowLink,
    LinkTarget, Outcome, SignatureHelpOptions, SignatureHelpStart, SignatureServer,
    StoredLens,
};
use helix_term::effect::language_server::annotations::{
    apply_code_lenses, apply_document_links, apply_inlay_hints, attach_document_colors,
    code_lens_annotations, fitting_clusters, lens_style, refresh_code_lens_annotations,
    shorten_label, ColorUpdate, InlayHint, InlayHintKind,
    InlayHintLabel, LensLabel, Located, Position,
};
use helix_term::effect::language_server::diagnostics::{
    apply_document_diagnostic_kind, apply_pull_diagnostics_response,
    pull_diagnostics_response_is_current, queue_document_diagnostics, should_start_pull_diagnostics,
    DiagnosticAnswer, PullDocument, ReportKind,
};
use helix_term::effect::language_server::folding::{
    apply_folding_ranges, collect_folds, folding_range_to_fold, folding_ranges_are_needed,
    should_replace_folds_with_lsp, FoldObject, FoldingRange, FoldingRangeKind, ViewFolds,
};
use helix_term::effect::language_server::inline_values::{
    accept_inline_completion, evaluated_annotation, fetch_inline_value_variables, ghost_line,
    frame_range, inline_completion_ghost, inline_value_annotations, inline_value_context,
    needs_variables, pending_inline_value_annotations, plan_inline_values, FrameRange,
    InlineValueContext,
    AcceptCompletion, InlineCompletion, InlineItem, InlineValue, InlineValueKind, PendingInlineValueLabel,
};
use helix_term::effect::language_server::requests::{
    accepts_answer, gather, receive, request_feature, request_inline_completion,
    request_inline_values, Feature, FeatureRequests, InlineTrigger, LspDocument, LspServer,
};
use helix_term::effect::language_server::semantic::{
    choose_view, delta_or_full, plan_tokens_request, request_semantic_tokens, semantic_result_data,
    semantic_tokens_request_range, DeltaAnswer, TokensAnswer, TokensRequest, ViewWindow,
};
use helix_term::effect::language_server::task::{
    apply_lsp_task, request_code_lenses, request_document_colors, request_document_links,
    request_folding_ranges, LspConfig, LspState, LspStep, LspTask,
};
use helix_term::handlers::diagnostics::{PullDiagnosticsPriority, PullDiagnosticsTarget};
use helix_term::handlers::signature_help::{SignatureHelpInvoked, SignatureRequest, TriggerKind};
use helix_term::lines::Text;

fn server(id: u64) -> LspServer {
    LspServer {
        id,
        document_colors: true,
        code_lens: true,
        document_links: true,
        semantic_tokens_full: true,
        semantic_tokens_range: true,
        semantic_tokens_delta: true,
        semantic_tokens_legend: true,
        folding_range: true,
        inline_completion: true,
        inline_values: true,
        pull_diagnostics: true,
    }
}

fn documents() -> IdMap<u64, LspDocument> {
    let mut documents = IdMap::new();
    documents.insert(
        1,
        LspDocument { version: 3, requests: FeatureRequests::new(), servers: vec![server(5)] },
    );
    documents
}

fn range(start_line: usize, end_line: usize) -> FoldingRange {
    FoldingRange { start_line, end_line, start_position: None, end_position: None, kind: None }
}

#[test]
fn folding_range_conversion_rejects_empty_and_out_of_bounds_ranges() {
    let text = Text::new("fn main() {\n    call();\n}\n");
    assert!(folding_range_to_fold(&text, &range(1, 1)).is_none());
    assert!(folding_range_to_fold(&text, &range(0, 99)).is_none());
}

#[test]
fn folding_range_conversion_creates_fold_for_multiline_range() {
    let text = Text::new("fn main() {\n    call();\n}\n");
    let region = FoldingRange { kind: Some(FoldingRangeKind::Region), ..range(0, 2) };
    let points = folding_range_to_fold(&text, &region).expect("valid folding range");
    assert!(matches!(points.object, FoldObject::Region));
    assert!(points.start < points.end);
    assert_eq!(collect_folds(&text, &vec![region, range(1, 1)]).len(), 1);
}

#[test]
fn lsp_folds_only_replace_empty_existing_folds() {
    let non_empty = Some(1);
    let empty = Some(0);
    assert!(should_replace_folds_with_lsp(None, false, true));
    assert!(should_replace_folds_with_lsp(empty, false, true));
    assert!(should_replace_folds_with_lsp(non_empty, true, true));
    assert!(!should_replace_folds_with_lsp(non_empty, false, true));
    assert!(!should_replace_folds_with_lsp(None, false, false));
    assert!(!should_replace_folds_with_lsp(empty, false, false));
    assert!(!should_replace_folds_with_lsp(non_empty, true, false));
}

#[test]
fn apply_folding_ranges_only_collapses_when_fold_on_open_is_enabled() {
    assert!(!folding_ranges_are_needed(true, false));
    let views = vec![ViewFolds { view: 10, doc: 1, existing: None, lsp_owned: false }];

    let mut closed = documents();
    let request = closed.get_mut(1).unwrap().requests.restart(Feature::FoldingRange);
    assert!(apply_folding_ranges(true, false, &closed, 1, 3, request, &views).is_empty());

    assert!(folding_ranges_are_needed(true, true));
    let mut open = documents();
    let stale_request = open.get_mut(1).unwrap().requests.restart(Feature::FoldingRange);
    let request = open.get_mut(1).unwrap().requests.restart(Feature::FoldingRange);
    assert!(apply_folding_ranges(true, true, &open, 1, 3, stale_request, &views).is_empty());
    assert_eq!(apply_folding_ranges(true, true, &open, 1, 3, request, &views), vec![10]);
    assert!(apply_folding_ranges(true, true, &open, 1, 4, request, &views).is_empty());
}

#[test]
fn semantic_tokens_range_uses_visible_line_window() {
    let text = Text::new("zero\none\ntwo\nthree\n");
    let range = semantic_tokens_request_range(&text, Some((1, 1)));
    assert_eq!(range, (text.line_to_char(1), text.line_to_char(3)));
    assert_eq!(semantic_tokens_request_range(&text, None), (0, text.len_chars()));
}

#[test]
fn inline_value_context_uses_stopped_stack_frame_range() {
    let text = Text::new("alpha\nbeta\n");
    let frame = StackFrame {
        id: 42,
        path: None,
        line: 2,
        column: 2,
        end_line: Some(2),
        end_column: Some(4),
    };
    let range = frame_range(&frame);
    assert_eq!(range, FrameRange { start: (2, 2), end: Some((2, 4)) });
    let position = |(line, column): (usize, usize)| text.line_to_char(line - 1) + column - 1;

    let start = position(range.start);
    let context = inline_value_context(&text, &frame, Some(start), range.end.map(position));

    assert_eq!(context.frame_id, 42);
    let line_and_character = |at: usize| {
        let line = text.char_to_line(at);
        (line, at - text.line_to_char(line))
    };
    let (from, to) = context.stopped_location;
    assert_eq!((line_and_character(from), line_and_character(to)), ((1, 1), (1, 3)));
}

#[test]
fn frames_without_an_end_are_places() {
    let text = Text::new("alpha\nbeta\n");
    let frame = |line, end_line, end_column| StackFrame {
        id: 1 << 32 | 7,
        path: None,
        line,
        column: 3,
        end_line,
        end_column,
    };
    assert_eq!(frame_range(&frame(1, None, Some(9))).end, None);
    assert_eq!(frame_range(&frame(1, Some(2), None)).end, Some((2, 3)));
    let context = inline_value_context(&text, &frame(2, None, None), None, None);
    assert_eq!(context, InlineValueContext { frame_id: 7, stopped_location: (6, 6) });
    let context = inline_value_context(&text, &frame(0, None, None), Some(4), Some(9));
    assert_eq!(context.stopped_location, (4, 4));
    let context = inline_value_context(&text, &frame(99, Some(2), None), None, Some(11));
    assert_eq!(context.stopped_location, (11, 11));
    let context = inline_value_context(&text, &frame(0, Some(2), None), None, None);
    assert_eq!(context.stopped_location, (0, 0));
}

#[test]
fn pending_inline_value_annotations_render_at_line_end() {
    let text = Text::new("let x = 1;\n");
    let annotations = pending_inline_value_annotations(
        &text,
        &vec![InlineValue {
            range: Some((4, 5)),
            kind: InlineValueKind::VariableLookup { variable_name: None, case_sensitive: true },
        }],
    );

    assert_eq!(annotations.len(), 1);
    assert_eq!(annotations[0].char_idx, 10);
    let PendingInlineValueLabel::Variable { name, .. } = &annotations[0].label else {
        panic!("expected variable lookup");
    };
    assert_eq!(name, "x");
    assert!(needs_variables(&annotations));
    let plan = plan_inline_values(&annotations, &vec![Some("1".to_string())]);
    assert_eq!(plan.annotations.len(), 1);
    assert!(plan.evaluations.is_empty());
    assert!(evaluated_annotation(3, None).is_none());
    assert_eq!(evaluated_annotation(3, Some("4".to_string())).unwrap().0, 3);
}

fn target() -> PullDiagnosticsTarget {
    PullDiagnosticsTarget {
        server_id: 5,
        document_id: 1,
        generation: 2,
        version: 7,
        uri: "pull-diagnostics.rs".to_string(),
        priority: PullDiagnosticsPriority::Interactive,
    }
}

#[test]
fn pull_diagnostics_response_requires_current_identity_and_attachment() {
    let uri = "pull-diagnostics.rs";
    let renamed = "renamed.rs";
    let target = target();
    let current = |response_uri, version, generation_is_current, document_uri, attached| {
        pull_diagnostics_response_is_current(
            &target,
            Some(5),
            response_uri,
            version,
            generation_is_current,
            document_uri,
            attached,
        )
    };
    assert!(current(uri, 7, true, Some(uri), true));
    assert!(!current(uri, 7, false, Some(uri), true));
    assert!(!current(uri, 8, true, Some(uri), true));
    assert!(!current(uri, 7, true, Some(renamed), true));
    assert!(!current(renamed, 7, true, Some(uri), true));
    assert!(!current(uri, 7, true, Some(uri), false));
    assert!(!pull_diagnostics_response_is_current(&target, None, uri, 7, true, Some(uri), true));
}

#[test]
fn newer_questions_make_older_answers_stale() {
    let mut documents = documents();
    let first = request_feature(true, Feature::CodeLens, &mut documents, 1).unwrap();
    assert_eq!(first.servers, vec![5]);
    assert_eq!(first.expected_version, 3);
    let second = request_feature(true, Feature::CodeLens, &mut documents, 1).unwrap();
    assert!(!accepts_answer(true, &documents, 1, 3, Feature::CodeLens, first.request));
    assert!(accepts_answer(true, &documents, 1, 3, Feature::CodeLens, second.request));
    assert!(!accepts_answer(true, &documents, 1, 4, Feature::CodeLens, second.request));
    assert!(!accepts_answer(false, &documents, 1, 3, Feature::CodeLens, second.request));
    assert!(request_feature(false, Feature::CodeLens, &mut documents, 1).is_none());
    assert!(request_feature(true, Feature::CodeLens, &mut documents, 2).is_none());
    let at = Position { line: 4, character: 2 };
    assert!(request_inline_completion(true, false, true, at, &mut documents, 1, true).is_none());
    let typed = request_inline_completion(true, true, false, at, &mut documents, 1, true).unwrap();
    assert_eq!(typed.trigger, InlineTrigger::Automatic);
    assert_eq!(typed.position, at);
    assert_eq!(typed.request.servers, vec![5]);
    let asked = request_inline_completion(true, true, true, at, &mut documents, 1, true).unwrap();
    assert_eq!(asked.trigger, InlineTrigger::Invoked);
    assert!(asked.request.request > typed.request.request);
    let mut gathered = vec![];
    receive(&mut gathered, 5, Some(vec!["a", "b"]));
    receive(&mut gathered, 6, None);
    assert_eq!(gathered, vec![(5, "a"), (5, "b")]);
}

#[test]
fn lenses_and_colors_are_kept_in_order() {
    let mut documents = documents();
    let request = documents.get_mut(1).unwrap().requests.restart(Feature::CodeLens);
    let lens = |from, complete| Located {
        server_id: 5,
        range: Some((from, from + 1)),
        complete,
        item: from,
    };
    let off_the_text = Located { server_id: 5, range: None, complete: true, item: 0 };
    let kept = apply_code_lenses(
        true,
        &documents,
        1,
        3,
        request,
        vec![lens(4, true), off_the_text, lens(2, false)],
    )
    .unwrap();
    assert_eq!(kept.len(), 2);
    assert!(apply_code_lenses(true, &documents, 1, 4, request, vec![lens(4, true)]).is_none());

    let request = documents.get_mut(1).unwrap().requests.restart(Feature::DocumentColors);
    match attach_document_colors(true, &documents, 1, 3, request, vec![(9, "red"), (2, "blue")]) {
        ColorUpdate::Show(colors) => assert_eq!(colors, vec![(2, "blue"), (9, "red")]),
        other => panic!("{:?}", other),
    }
    let none: ColorUpdate<&str> =
        attach_document_colors(true, &documents, 1, 3, request, vec![]);
    assert!(matches!(none, ColorUpdate::Clear));
    let off: ColorUpdate<&str> =
        attach_document_colors(false, &documents, 1, 3, request, vec![(1, "x")]);
    assert!(matches!(off, ColorUpdate::Ignore));

    let text = Text::new("fn a() {}\nfn b() {}\n");
    let labels = vec![
        LensLabel { from: 0, title: Some("run".to_string()) },
        LensLabel { from: 1, title: Some("debug".to_string()) },
        LensLabel { from: 10, title: None },
    ];
    let annotations = code_lens_annotations(&text, &labels);
    assert!(!annotations.is_empty());
    assert!(annotations[0].text.contains("run") && annotations[0].text.contains("debug"));
}

#[test]
fn long_hints_are_cut_between_clusters() {
    assert_eq!(shorten_label("abcdef".to_string(), Some(3)), "abc.");
    assert_eq!(shorten_label("abc".to_string(), Some(3)), "abc");
    assert_eq!(shorten_label("abcdef".to_string(), None), "abcdef");
    // Each of these takes two columns.
    assert_eq!(shorten_label("漢字漢字".to_string(), Some(5)), "漢字.");
    // A letter and its accent stay together.
    assert_eq!(shorten_label("e\u{301}e\u{301}e\u{301}".to_string(), Some(2)), "e\u{301}e\u{301}.");
    let clusters = vec!["a".to_string(), "漢".to_string(), "b".to_string()];
    assert_eq!(fitting_clusters(&clusters, 3), 2);
}

fn hint(label: &str, kind: Option<InlayHintKind>) -> InlayHint {
    InlayHint {
        char_idx: Some(4),
        label: InlayHintLabel::Text(label.to_string()),
        kind,
        padding_left: Some(true),
        padding_right: None,
    }
}

#[test]
fn hints_are_sorted_by_kind() {
    let hints = vec![
        (Position { line: 1, character: 0 }, hint("later", None)),
        (Position { line: 0, character: 3 }, hint(": u8", Some(InlayHintKind::Type))),
        (Position { line: 0, character: 1 }, hint("n:", Some(InlayHintKind::Parameter))),
        (Position { line: 0, character: 9 }, InlayHint { char_idx: None, ..hint("lost", None) }),
    ];
    let shown = apply_inlay_hints(true, true, true, hints, None).unwrap();
    assert_eq!(shown.type_inlay_hints, vec![(4, ": u8".to_string())]);
    assert_eq!(shown.parameter_inlay_hints, vec![(4, "n:".to_string())]);
    assert_eq!(shown.other_inlay_hints, vec![(4, "later".to_string())]);
    assert_eq!(shown.padding_before_inlay_hints.len(), 3);
    assert!(shown.padding_after_inlay_hints.is_empty());
    let labels: Vec<String> = shown.lsp_hints.iter().map(|(_, hint)| hint.label.text()).collect();
    assert_eq!(labels, ["n:", ": u8", "lost", "later"]);
    assert!(apply_inlay_hints(false, true, true, vec![], None).is_none());
    let parts = InlayHintLabel::Parts(vec!["a".to_string(), "b".to_string()]);
    assert_eq!(parts.text(), "ab");
}

#[test]
fn tokens_are_asked_for_as_little_as_possible() {
    let text = Text::new("zero\none\n");
    let views = vec![ViewWindow { doc: 1, focused: true, anchor: 0, height: 20 }];
    assert_eq!(choose_view(&views, 1).unwrap().anchor, 0);
    assert!(choose_view(&views, 2).is_none());
    let mut previous: IdMap<u64, String> = IdMap::new();
    let planned = request_semantic_tokens(true, &mut documents(), 1, &text, &views, &previous);
    assert_eq!(planned.unwrap().servers.len(), 1);
    previous.insert(5, "r1".to_string());
    match plan_tokens_request(&server(5), false, (0, 9), &previous) {
        Some(TokensRequest::Delta { previous_result_id }) => assert_eq!(previous_result_id, "r1"),
        other => panic!("{:?}", other),
    }
    match plan_tokens_request(&server(5), true, (2, 9), &previous) {
        Some(TokensRequest::Range { from: 2, to: 9 }) => {}
        other => panic!("{:?}", other),
    }
    let mut bare = server(5);
    bare.semantic_tokens_delta = false;
    assert!(matches!(
        plan_tokens_request(&bare, false, (0, 9), &previous),
        Some(TokensRequest::Full)
    ));
    let answer = TokensAnswer::Tokens { data: vec![1, 2], result_id: Some("r2".to_string()) };
    assert_eq!(semantic_result_data(Some(answer)), (vec![1, 2], Some("r2".to_string())));
    let nothing: Option<TokensAnswer<u8>> = None;
    assert_eq!(semantic_result_data(nothing), (vec![], None));
    let broken: DeltaAnswer<u8> = DeltaAnswer::TokensDelta { applied: None, result_id: None };
    assert!(delta_or_full(Ok(Some(broken))).is_none());
    let failed: Result<Option<DeltaAnswer<u8>>, String> = Err("gone".to_string());
    assert!(delta_or_full(failed).is_none());
}

#[test]
fn diagnostics_are_asked_for_once_per_server() {
    let mut documents = IdMap::new();
    documents.insert(
        1,
        PullDocument {
            version: 7,
            uri: Some("pull-diagnostics.rs".to_string()),
            servers: vec![server(5), server(6)],
        },
    );
    let mut generations = IdMap::new();
    let targets = queue_document_diagnostics(
        &documents,
        &mut generations,
        &vec![1, 2],
        &Some(vec![5]),
        PullDiagnosticsPriority::Background,
    );
    assert_eq!(targets.len(), 1);
    assert_eq!(targets[0].server_id, 5);
    assert_eq!(targets[0].version, 7);
    assert!(should_start_pull_diagnostics(&documents, &generations, &targets[0]));
    let newer = queue_document_diagnostics(
        &documents,
        &mut generations,
        &vec![1],
        &None,
        PullDiagnosticsPriority::Interactive,
    );
    assert_eq!(newer.len(), 2);
    assert!(!should_start_pull_diagnostics(&documents, &generations, &targets[0]));
}

#[test]
fn reports_replace_what_was_known() {
    let full = ReportKind::Full { items: "items", result_id: Some("r".to_string()) };
    let effect = apply_document_diagnostic_kind(full);
    assert_eq!(effect.replace, Some("items"));
    assert_eq!(effect.result_id, Some("r".to_string()));
    let unchanged: ReportKind<&str> = ReportKind::Unchanged { result_id: "r".to_string() };
    assert_eq!(apply_document_diagnostic_kind(unchanged).replace, None);

    let answer = || DiagnosticAnswer {
        report: Some(ReportKind::Full { items: "own", result_id: None }),
        related: vec![
            (Some("b.rs".to_string()), ReportKind::Full { items: "related", result_id: None }),
            (None, ReportKind::Full { items: "unsupported", result_id: None }),
        ],
    };
    let known = vec![(1, Some("pull-diagnostics.rs".to_string())), (2, Some("b.rs".to_string()))];
    let effects = apply_pull_diagnostics_response(&target(), true, answer(), &known);
    assert_eq!(effects.len(), 2);
    assert_eq!(effects[0].uri, "pull-diagnostics.rs");
    assert_eq!(effects[0].remember, Some(1));
    assert_eq!(effects[1].remember, Some(2));
    assert!(apply_pull_diagnostics_response(&target(), false, answer(), &known).is_empty());
}

#[test]
fn code_actions_edit_and_execute() {
    let item = || CodeActionItem::CodeAction { edit: None::<&str>, command: Some("run") };
    assert!(matches!(
        request_apply_code_action(true, true, item()),
        Outcome::Do(CodeActionStep::Resolve { .. })
    ));
    assert!(matches!(
        request_apply_code_action(true, false, item()),
        Outcome::Do(CodeActionStep::Apply { .. })
    ));
    let command: CodeActionItem<&str, &str> = CodeActionItem::Command("run");
    assert!(matches!(
        request_apply_code_action(true, true, command),
        Outcome::Do(CodeActionStep::Execute("run"))
    ));
    assert!(!matches!(request_apply_code_action(false, true, item()), Outcome::Do(_)));
    assert_eq!(completed_code_action("old", None), "old");
    assert_eq!(completed_code_action("old", Some("new")), "new");
    assert!(matches!(
        apply_code_action(Some("edit"), Some("run")),
        CodeActionEffect::Edit { edit: "edit", then_execute: Some("run") }
    ));
    let nothing: CodeActionEffect<&str, &str> = apply_code_action(None, None);
    assert!(matches!(nothing, CodeActionEffect::Nothing));
    assert!(matches!(apply_execute_lsp_command(true, "c"), Outcome::Do("c")));
    assert!(!matches!(apply_execute_lsp_command(false, "c"), Outcome::Do(_)));
}

#[test]
fn signature_help_is_asked_for_by_trigger_characters() {
    let typed = TriggerKind::TriggerCharacter;
    let options = Some(SignatureHelpOptions {
        trigger_characters: Some(vec!["(".to_string()]),
        retrigger_characters: Some(vec![",".to_string()]),
    });
    assert_eq!(
        signature_help_trigger_character(typed, &options, &['f', '(']),
        Some("(".to_string())
    );
    assert_eq!(signature_help_trigger_character(typed, &options, &['f']), None);
    assert_eq!(signature_help_trigger_character(TriggerKind::ContentChange, &options, &['(']), None);
    assert_eq!(
        signature_help_trigger_character(typed, &options, &['f', ',']),
        Some(",".to_string())
    );
    let silent = SignatureServer { takes_it: false, options: None };
    let server = SignatureServer { takes_it: true, options };
    let asked = |invoked| SignatureRequest {
        invoked,
        request: 4,
        trigger_kind: typed,
        is_retrigger: true,
    };
    let automatic = SignatureHelpInvoked::Automatic;
    match request_signature_help(&vec![silent, server], &['f', '('], asked(automatic)) {
        SignatureHelpStart::Ask { server, trigger_kind, trigger_character, is_retrigger } => {
            assert_eq!((server, trigger_kind, is_retrigger), (1, typed, true));
            assert_eq!(trigger_character, Some("(".to_string()));
        }
        _ => panic!("the second server is asked"),
    }
    let silent = vec![SignatureServer { takes_it: false, options: None }];
    let manual = SignatureHelpInvoked::Manual;
    let start = request_signature_help(&silent, &[], asked(manual));
    assert!(matches!(start, SignatureHelpStart::Complain));
    let start = request_signature_help(&vec![], &[], asked(automatic));
    assert!(matches!(start, SignatureHelpStart::Nothing));
    assert!(!no_signature_help().is_empty());
    assert!(!rename_failed("invalid").is_empty());
}

#[test]
fn linked_ranges_are_selected_around_the_cursor() {
    let selected = select_ranges(&vec![Some((2, 5)), None, Some((8, 11))], 9).unwrap();
    assert_eq!(selected.ranges, vec![(2, 5), (8, 11)]);
    assert_eq!(selected.primary, 1);
    assert!(select_ranges(&vec![None], 9).is_none());
}

#[test]
fn inline_completions_are_inserted_where_they_were_made() {
    assert_eq!(ghost_line("first\nsecond"), Some("first".to_string()));
    assert_eq!(ghost_line(""), None);
    let made = InlineCompletion { view_id: 10, version: 3, cursor: 4, replace_range: Some((2, 4)) };
    assert!(matches!(
        accept_inline_completion(Some(made), 10, 3),
        AcceptCompletion::Insert { from: 2, to: 4 }
    ));
    let made = InlineCompletion { view_id: 10, version: 3, cursor: 4, replace_range: None };
    assert!(matches!(accept_inline_completion(Some(made), 10, 4), AcceptCompletion::Discard));
    assert!(matches!(accept_inline_completion(None, 10, 4), AcceptCompletion::Nothing));
}

#[test]
fn lines_are_found_by_their_characters() {
    let text = Text::new("ab\r\n  cd\n");
    assert_eq!(text.len_lines(), 3);
    assert_eq!(text.char_to_line(5), 1);
    assert_eq!(text.line_end_char_index(0), 2);
    assert_eq!(text.line_end_char_index(1), 8);
    assert_eq!(text.first_non_whitespace_char(1), Some(2));
    assert_eq!(text.slice(6, 8), "cd");
}

#[test]
fn resolved_lenses_take_the_place_of_their_lens() {
    let stored = || {
        vec![
            StoredLens { server_id: 5, lens: "a".to_string(), resolved: false },
            StoredLens { server_id: 6, lens: "a".to_string(), resolved: false },
        ]
    };
    let mut lenses = stored();
    let done =
        apply_resolved_code_lens(Some(3), 3, &mut lenses, 6, "a", "b".to_string(), Some("run"));
    assert!(matches!(done, Outcome::Do("run")));
    assert_eq!(lenses[0].lens, "a");
    assert_eq!(lenses[1].lens, "b");
    assert!(lenses[1].resolved && !lenses[0].resolved);
    let mut lenses = stored();
    let empty: Outcome<&str> =
        apply_resolved_code_lens(Some(3), 3, &mut lenses, 5, "a", "b".to_string(), None);
    match empty {
        Outcome::Error(message) => assert_eq!(message, "Code lens did not resolve to a command"),
        _ => panic!("there is no command"),
    }
    let mut lenses = stored();
    let changed =
        apply_resolved_code_lens(Some(4), 3, &mut lenses, 5, "a", "b".to_string(), Some("run"));
    match changed {
        Outcome::Status(message) => assert_eq!(message, "Code lens changed before it resolved"),
        _ => panic!("the document has changed"),
    }
    assert_eq!(lenses[0].lens, "a");
    let gone =
        apply_resolved_code_lens(Some(3), 3, &mut lenses, 5, "z", "b".to_string(), Some("run"));
    assert!(matches!(gone, Outcome::Status(_)));
}

#[test]
fn links_lead_into_files_or_out_of_the_editor() {
    let link = |scheme: &str, is_file_uri: bool, path: Option<&str>| LinkTarget {
        scheme: scheme.to_string(),
        is_file_uri,
        path: path.map(str::to_string),
    };
    match apply_resolved_document_link(Some(1), 1, link("file", true, Some("/a"))) {
        Outcome::Do(FollowLink::OpenPath(path)) => assert_eq!(path, "/a"),
        _ => panic!("a file is opened"),
    }
    assert!(matches!(
        apply_resolved_document_link(Some(1), 1, link("https", false, None)),
        Outcome::Do(FollowLink::OpenExternally)
    ));
    match apply_resolved_document_link(Some(1), 1, link("file", false, None)) {
        Outcome::Error(message) => {
            assert_eq!(message, "Document link target is not a valid file URI")
        }
        _ => panic!("not a file"),
    }
    match apply_resolved_document_link(Some(1), 1, link("file", true, None)) {
        Outcome::Error(message) => assert_eq!(message, "Document link target is not a local path"),
        _ => panic!("not a local path"),
    }
    assert!(matches!(
        apply_resolved_document_link(None, 1, link("file", true, Some("/a"))),
        Outcome::Status(_)
    ));
}

#[test]
fn renames_are_for_the_document_they_were_asked_of() {
    assert!(matches!(apply_rename_edit(Some(2), 2, "edit"), Outcome::Do("edit")));
    match apply_rename_edit(Some(3), 2, "edit") {
        Outcome::Status(message) => assert_eq!(message, "Document changed before rename completed"),
        _ => panic!("the document has changed"),
    }
}

#[test]
fn links_are_kept_with_the_last_answer() {
    let mut documents = documents();
    let asked = request_feature(true, Feature::DocumentLinks, &mut documents, 1).unwrap();
    let links = || {
        vec![
            Located { server_id: 5, range: Some((2, 4)), complete: true, item: "a" },
            Located { server_id: 5, range: None, complete: true, item: "b" },
        ]
    };
    let kept =
        apply_document_links(&documents, 1, asked.expected_version, asked.request, links()).unwrap();
    assert_eq!(kept.len(), 1);
    assert_eq!(kept[0].range, (2, 4));
    assert_eq!(kept[0].item, "a");
    let again = request_feature(true, Feature::DocumentLinks, &mut documents, 1).unwrap();
    assert!(again.request != asked.request);
    assert!(
        apply_document_links(&documents, 1, asked.expected_version, asked.request, links())
            .is_none()
    );
}

#[test]
fn values_are_asked_for_at_a_stopped_frame() {
    let mut documents = documents();
    assert!(request_inline_values(true, false, &mut documents, 1, true).is_none());
    assert!(request_inline_values(false, true, &mut documents, 1, true).is_none());
    let asked = request_inline_values(true, true, &mut documents, 1, true).unwrap();
    assert_eq!(asked.servers, vec![5]);
    assert!(accepts_answer(true, &documents, 1, 3, Feature::InlineValues, asked.request));
}

fn lsp_state() -> LspState {
    LspState {
        config: LspConfig {
            color_swatches: true,
            code_lens: true,
            document_links: false,
            semantic_tokens: true,
            inline_completion: true,
            inline_values: true,
            inlay_hints: true,
            inlay_hints_limit: None,
            folding: true,
            fold_on_open: true,
        },
        documents: documents(),
        pulled: IdMap::new(),
        generations: IdMap::new(),
    }
}

#[test]
fn answers_are_taken_in_while_they_count() {
    let mut state = lsp_state();
    let asked = request_feature(true, Feature::SemanticTokens, &mut state.documents, 1).unwrap();
    let tokens = |version, request| LspTask::ApplySemanticTokens {
        doc_id: 1,
        server_id: 5,
        version,
        request,
        tokens: "tokens",
    };
    assert!(matches!(
        apply_lsp_task(&mut state, tokens(3, asked.request)),
        LspStep::SemanticTokens { doc_id: 1, server_id: 5, tokens: "tokens" }
    ));
    assert!(matches!(apply_lsp_task(&mut state, tokens(2, asked.request)), LspStep::Nothing));
    assert!(matches!(apply_lsp_task(&mut state, tokens(3, asked.request + 1)), LspStep::Nothing));
    state.config.semantic_tokens = false;
    assert!(matches!(apply_lsp_task(&mut state, tokens(3, asked.request)), LspStep::Nothing));

    let values: LspTask<&str> =
        LspTask::RequestInlineValues { doc_id: 1, stopped_at_frame: true, can_request: true };
    let request = match apply_lsp_task(&mut state, values) {
        LspStep::AskForValues(request) => request.request,
        _ => panic!("values are asked for"),
    };
    let answer = LspTask::ApplyInlineValues {
        doc_id: 1,
        expected_version: 3,
        request,
        values: "values",
    };
    assert!(matches!(
        apply_lsp_task(&mut state, answer),
        LspStep::InlineValues { doc_id: 1, values: "values" }
    ));
    let rename = LspTask::ApplyRenameEdit { doc_id: 1, expected_version: 2, workspace_edit: "e" };
    assert!(matches!(
        apply_lsp_task(&mut state, rename),
        LspStep::Rename(Outcome::Status(_))
    ));
    let highlights: LspTask<&str> = LspTask::SelectDocumentHighlights {
        ranges: vec![Some((0, 2)), None, Some((4, 6))],
        cursor: 5,
    };
    match apply_lsp_task(&mut state, highlights) {
        LspStep::Select(selected) => {
            assert_eq!(selected.ranges, vec![(0, 2), (4, 6)]);
            assert_eq!(selected.primary, 1);
        }
        _ => panic!("the ranges are selected"),
    }
}

#[test]
fn diagnostics_are_asked_for_and_taken_in_for_the_same_question() {
    let mut state = lsp_state();
    state.pulled.insert(
        1,
        PullDocument { version: 3, uri: Some("file:///a".to_string()), servers: vec![server(5)] },
    );
    let targets = queue_document_diagnostics(
        &state.pulled,
        &mut state.generations,
        &vec![1],
        &None,
        PullDiagnosticsPriority::Interactive,
    );
    assert_eq!(targets.len(), 1);
    let target = || targets[0].copy();
    let start: LspTask<&str> = LspTask::StartPullDiagnostics(target());
    assert!(matches!(apply_lsp_task(&mut state, start), LspStep::StartDiagnostics(_)));
    let response = |uri: &str| LspTask::PullDiagnosticsResponse {
        target: target(),
        provider_server: Some(5),
        uri: uri.to_string(),
        answer: DiagnosticAnswer {
            report: Some(ReportKind::Full { items: "items", result_id: None }),
            related: Vec::new(),
        },
        documents: vec![(1, Some("file:///a".to_string()))],
    };
    match apply_lsp_task(&mut state, response("file:///a")) {
        LspStep::Diagnostics(effects) => assert_eq!(effects.len(), 1),
        _ => panic!("diagnostics are shown"),
    }
    match apply_lsp_task(&mut state, response("file:///b")) {
        LspStep::Diagnostics(effects) => assert!(effects.is_empty()),
        _ => panic!("nothing is shown"),
    }
    queue_document_diagnostics(
        &state.pulled,
        &mut state.generations,
        &vec![1],
        &None,
        PullDiagnosticsPriority::Interactive,
    );
    let stale: LspTask<&str> = LspTask::StartPullDiagnostics(target());
    assert!(matches!(apply_lsp_task(&mut state, stale), LspStep::AbandonDiagnostics(_)));
}

#[test]
fn features_are_asked_for_where_they_are_switched_on() {
    let mut state = lsp_state();
    assert_eq!(request_document_colors(&mut state, 1).unwrap().servers, vec![5]);
    assert_eq!(request_code_lenses(&mut state, 1).unwrap().servers, vec![5]);
    assert!(request_document_links(&mut state, 1).is_none());
    let asked = request_folding_ranges(&mut state, 1).unwrap();
    assert_eq!(asked.request, 3);
    state.config.fold_on_open = false;
    assert!(request_folding_ranges(&mut state, 1).is_none());
    assert!(request_code_lenses(&mut state, 2).is_none());
}

#[test]
fn answers_are_put_together_in_the_order_of_the_servers() {
    let answers = vec![(5, Some(vec!["a", "b"])), (6, None), (7, Some(vec!["c"]))];
    assert_eq!(gather(answers), vec![(5, "a"), (5, "b"), (7, "c")]);
}

#[test]
fn the_first_completion_is_shown() {
    let item = |text: &str, range| InlineItem { insert_text: text.to_string(), range };
    assert!(inline_completion_ghost(vec![], 2, 3, 7).is_none());
    let items = vec![item("one\ntwo", Some((4, 7))), item("other", None)];
    let shown = inline_completion_ghost(items, 2, 3, 7).unwrap();
    assert_eq!(shown.text, "one\ntwo");
    assert_eq!(shown.line, "one");
    assert_eq!(shown.completion.replace_range, Some((4, 7)));
    assert_eq!((shown.completion.view_id, shown.completion.version), (2, 3));
    assert_eq!(shown.completion.cursor, 7);
    assert!(inline_completion_ghost(vec![item("\nx", None), item("y", None)], 2, 3, 7).is_none());
}

#[test]
fn values_are_shown_once_they_are_evaluated() {
    let known = vec![(4, " = 1".to_string())];
    let evaluated = vec![
        (9, Some("two".to_string())),
        (12, None),
        (15, Some(String::new())),
        (3, Some("x".to_string())),
    ];
    assert_eq!(
        inline_value_annotations(known, evaluated),
        vec![(4, " = 1".to_string()), (9, " = two".to_string()), (3, " = x".to_string())]
    );
    let scopes = vec![Some(vec!["a", "b"]), Some(vec![]), Some(vec!["c"])];
    assert_eq!(fetch_inline_value_variables(scopes), Some(vec!["a", "b", "c"]));
    assert_eq!(fetch_inline_value_variables(vec![Some(vec!["a"]), None, Some(vec!["c"])]), None);
    assert_eq!(fetch_inline_value_variables::<u8>(vec![]), Some(vec![]));
}

#[test]
fn lenses_are_shown_in_all_views_of_their_document() {
    assert_eq!(refresh_code_lens_annotations(&vec![(1, 7), (2, 8), (3, 7)], 7), vec![1, 3]);
    assert_eq!(lens_style(), "ui.virtual");
}
