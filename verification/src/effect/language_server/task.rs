//! What answers of language servers do once they have come back.

use vstd::prelude::*;

use crate::collections::IdMap;
use crate::effect::language_server::actions;
use crate::effect::language_server::actions::{
    apply_code_action, apply_execute_lsp_command, apply_rename_edit, apply_resolved_code_lens,
    apply_resolved_document_link, request_signature_help, select_ranges, CodeActionEffect,
    FollowLink, LinkTarget, Outcome, Selected, SignatureHelpStart, SignatureServer, StoredLens,
};
use crate::effect::language_server::annotations;
use crate::effect::language_server::annotations::{
    apply_code_lenses, apply_document_links, apply_inlay_hints, attach_document_colors, ColorUpdate,
    InlayHint, InlayHints, Kept, Located, Position,
};
use crate::effect::language_server::diagnostics;
use crate::effect::language_server::diagnostics::{
    answer_is_current, apply_pull_diagnostics_response, should_start_pull_diagnostics,
    DiagnosticAnswer, DiagnosticEffect, PullDocument,
};
use crate::effect::language_server::folding;
use crate::effect::language_server::folding::{
    apply_folding_ranges, folding_ranges_are_needed, ViewFolds,
};
use crate::effect::language_server::requests;
use crate::effect::language_server::requests::{
    accepts_answer, request_feature, request_inline_values, Feature, FeatureRequest, LspDocument,
};
use crate::handlers::diagnostics::{PullDiagnosticsKey, PullDiagnosticsTarget};
use crate::handlers::signature_help::SignatureRequest;
use crate::sorting;

verus! {

/// What is switched on.
#[derive(Debug, Clone, Copy, PartialEq, Eq, Structural)]
pub struct LspConfig {
    pub color_swatches: bool,
    pub code_lens: bool,
    pub document_links: bool,
    pub semantic_tokens: bool,
    pub inline_completion: bool,
    pub inline_values: bool,
    pub inlay_hints: bool,
    /// The most characters that a hint takes.
    pub inlay_hints_limit: Option<usize>,
    pub folding: bool,
    pub fold_on_open: bool,
}

/// The documents as far as language servers are concerned.
#[derive(Debug)]
pub struct LspState {
    pub config: LspConfig,
    pub documents: IdMap<u64, LspDocument>,
    /// The same documents, as far as they are asked for diagnostics.
    pub pulled: IdMap<u64, PullDocument>,
    /// Which question about a document on a server was the last.
    pub generations: IdMap<PullDiagnosticsKey, u64>,
}

impl LspState {
    pub open spec fn wf(&self) -> bool {
        self.documents.wf() && self.pulled.wf() && self.generations.wf()
    }

    pub open spec fn spec_version(self, doc_id: u64) -> Option<i32> {
        if self.documents@.dom().contains(doc_id) {
            Some(self.documents@[doc_id].version)
        } else {
            None
        }
    }

    /// The answer counts, about this version.
    pub open spec fn takes(
        self,
        enabled: bool,
        doc_id: u64,
        version: i32,
        feature: Feature,
        request: u64,
    ) -> bool {
        enabled && requests::counts(self.documents@, doc_id, version, feature, request)
    }

    /// The requests about the document have not run out.
    pub open spec fn can_ask(self, doc_id: u64) -> bool {
        self.documents@.dom().contains(doc_id) ==> self.documents@[doc_id].requests.issued
            < u64::MAX
    }

    /// Every server with the feature is asked about the document, which leads to `after`.
    pub open spec fn asks(
        self,
        enabled: bool,
        feature: Feature,
        doc_id: u64,
        after: Self,
        r: Option<FeatureRequest>,
    ) -> bool {
        &&& after.config == self.config
        &&& after.pulled == self.pulled
        &&& after.generations == self.generations
        &&& after.documents.order() == self.documents.order()
        &&& requests::every_server_asked(
            enabled,
            feature,
            self.documents@,
            after.documents@,
            doc_id,
            r,
        )
    }

    fn version(&self, doc_id: u64) -> (r: Option<i32>)
        requires
            self.wf(),
        ensures
            r == self.spec_version(doc_id),
    {
        match self.documents.get(doc_id) {
            Some(document) => Some(document.version),
            None => None,
        }
    }
}

/// An answer that has come back, with what the editor looks like by then. What is only handed on
/// is a `P`.
#[derive(Debug)]
#[allow(inconsistent_fields)]
pub enum LspTask<P> {
    AttachDocumentColors {
        doc_id: u64,
        expected_version: i32,
        request: u64,
        colors: Vec<(usize, P)>,
    },
    StartPullDiagnostics(PullDiagnosticsTarget),
    PullDiagnosticsResponse {
        target: PullDiagnosticsTarget,
        provider_server: Option<u64>,
        uri: String,
        answer: DiagnosticAnswer<P>,
        /// The documents and their addresses.
        documents: Vec<(u64, Option<String>)>,
    },
    RequestSignature {
        servers: Vec<SignatureServer>,
        before_cursor: Vec<char>,
        asked: SignatureRequest,
    },
    SelectDocumentHighlights { ranges: Vec<Option<(usize, usize)>>, cursor: usize },
    ApplyInlayHints {
        view_exists: bool,
        view_id: u64,
        doc_id: u64,
        server_id: u64,
        /// The lines that were asked about.
        lines: (usize, usize),
        hints: Vec<(Position, InlayHint)>,
    },
    ApplyCodeLenses {
        doc_id: u64,
        expected_version: i32,
        request: u64,
        lenses: Vec<Located<P>>,
    },
    ApplySemanticTokens { doc_id: u64, server_id: u64, version: i32, request: u64, tokens: P },
    ApplyInlineCompletion { doc_id: u64, version: i32, request: u64, completion: P },
    ApplyInlineValues { doc_id: u64, expected_version: i32, request: u64, values: P },
    RequestInlineValues { doc_id: u64, stopped_at_frame: bool, can_request: bool },
    ApplyDocumentLinks {
        doc_id: u64,
        expected_version: i32,
        request: u64,
        links: Vec<Located<P>>,
    },
    ApplyFoldingRanges {
        doc_id: u64,
        expected_version: i32,
        request: u64,
        folds: P,
        views: Vec<ViewFolds>,
    },
    ApplyLinkedEditingRanges { ranges: Vec<Option<(usize, usize)>>, cursor: usize },
    ExecuteCommand { server_takes_commands: bool, command: P },
    ApplyResolvedCodeLens {
        doc_id: u64,
        expected_version: i32,
        server_id: u64,
        original: String,
        resolved: String,
        command: Option<P>,
        /// The lenses of the document.
        lenses: Vec<StoredLens>,
    },
    OpenResolvedDocumentLink { doc_id: u64, expected_version: i32, target: LinkTarget },
    ApplyRenameEdit { doc_id: u64, expected_version: i32, workspace_edit: P },
    ApplyCodeAction { workspace_edit: Option<P>, command: Option<P> },
}

/// What an answer does.
#[derive(Debug)]
#[allow(inconsistent_fields)]
pub enum LspStep<P> {
    Nothing,
    Colors { doc_id: u64, update: ColorUpdate<P> },
    /// The question is put to its server.
    StartDiagnostics(PullDiagnosticsTarget),
    /// The question is given up.
    AbandonDiagnostics(PullDiagnosticsTarget),
    Diagnostics(Vec<DiagnosticEffect<P>>),
    SignatureHelp(SignatureHelpStart),
    Select(Selected),
    /// The view gets the hints, which are from this server and for these lines, and those of the
    /// document are up to date.
    InlayHints {
        view_id: u64,
        doc_id: u64,
        server_id: u64,
        lines: (usize, usize),
        hints: InlayHints,
    },
    /// The document gets the lenses, and what is shown for them is made anew in its views.
    CodeLenses { doc_id: u64, lenses: Vec<Kept<P>> },
    SemanticTokens { doc_id: u64, server_id: u64, tokens: P },
    InlineCompletion { doc_id: u64, completion: P },
    InlineValues { doc_id: u64, values: P },
    AskForValues(FeatureRequest),
    DocumentLinks { doc_id: u64, links: Vec<Kept<P>> },
    /// The views that get the folds.
    Folds { views: Vec<u64>, folds: P },
    Command(Outcome<P>),
    LensResolved { doc_id: u64, lenses: Vec<StoredLens>, outcome: Outcome<P> },
    FollowLink(Outcome<FollowLink>),
    Rename(Outcome<P>),
    CodeAction(CodeActionEffect<P, P>),
}

/// The answer leads to this step; only a question about values leaves a trace in `after`.
pub open spec fn task_done<P>(
    before: LspState,
    task: LspTask<P>,
    after: LspState,
    step: LspStep<P>,
) -> bool {
    match task {
        LspTask::RequestInlineValues { doc_id, stopped_at_frame, can_request } => {
            &&& after.config == before.config
            &&& after.pulled == before.pulled
            &&& after.generations == before.generations
            &&& after.documents.order() == before.documents.order()
            &&& requests::first_server_asked(
                before.config.inline_values && stopped_at_frame && can_request,
                Feature::InlineValues,
                before.documents@,
                after.documents@,
                doc_id,
                match step {
                    LspStep::AskForValues(request) => Some(request),
                    _ => None,
                },
            )
            &&& step is AskForValues || step is Nothing
        },
        _ => after == before && answer_done(before, task, step),
    }
}

/// What an answer does, as the documents are.
pub open spec fn answer_done<P>(state: LspState, task: LspTask<P>, step: LspStep<P>) -> bool {
    let config = state.config;
    match task {
        LspTask::AttachDocumentColors { doc_id, expected_version, request, colors } => {
            step matches LspStep::Colors { doc_id: shown, update } && {
                let takes = state.takes(
                    config.color_swatches,
                    doc_id,
                    expected_version,
                    Feature::DocumentColors,
                    request,
                );
                &&& shown == doc_id
                &&& match update {
                    ColorUpdate::Ignore => !takes,
                    ColorUpdate::Clear => takes && colors@.len() == 0,
                    ColorUpdate::Show(swatches) => takes && colors@.len() > 0 && swatches@
                        == sorting::sorted(colors@),
                }
            }
        },
        LspTask::StartPullDiagnostics(target) => step == if diagnostics::still_asked(
            state.pulled@,
            state.generations@,
            target@,
        ) {
            LspStep::<P>::StartDiagnostics(target)
        } else {
            LspStep::<P>::AbandonDiagnostics(target)
        },
        LspTask::PullDiagnosticsResponse { target, provider_server, uri, answer, documents } => {
            step matches LspStep::Diagnostics(effects) && diagnostics::answer_effects(
                effects@,
                target,
                diagnostics::still_asked(state.pulled@, state.generations@, target@)
                    && provider_server == Some(target.server_id) && uri@ == target.uri@,
                answer,
                documents@,
            )
        },
        LspTask::RequestSignature { servers, before_cursor, asked } => {
            step matches LspStep::SignatureHelp(start) && actions::signature_help_started(
                servers@,
                before_cursor@,
                asked,
                start,
            )
        },
        LspTask::SelectDocumentHighlights { ranges, cursor } => selection_done(
            ranges@,
            cursor,
            step,
        ),
        LspTask::ApplyLinkedEditingRanges { ranges, cursor } => selection_done(
            ranges@,
            cursor,
            step,
        ),
        LspTask::ApplyInlayHints {
            view_exists,
            view_id,
            doc_id,
            server_id,
            lines,
            hints,
        } => if config.inlay_hints && view_exists && state.spec_version(doc_id) is Some {
            step matches LspStep::InlayHints {
                view_id: view,
                doc_id: shown,
                server_id: server,
                lines: asked,
                hints: set,
            } && view == view_id && shown == doc_id && server == server_id && asked == lines
                && set.shows(sorting::sorted(hints@), config.inlay_hints_limit)
        } else {
            step is Nothing
        },
        LspTask::ApplyCodeLenses { doc_id, expected_version, request, lenses } => if state.takes(
            config.code_lens,
            doc_id,
            expected_version,
            Feature::CodeLens,
            request,
        ) {
            step matches LspStep::CodeLenses { doc_id: shown, lenses: set } && shown == doc_id
                && set@ == annotations::kept(lenses@)
        } else {
            step is Nothing
        },
        LspTask::ApplyDocumentLinks { doc_id, expected_version, request, links } => if state.takes(
            true,
            doc_id,
            expected_version,
            Feature::DocumentLinks,
            request,
        ) {
            step matches LspStep::DocumentLinks { doc_id: shown, links: set } && shown == doc_id
                && set@ == annotations::kept(links@)
        } else {
            step is Nothing
        },
        LspTask::ApplySemanticTokens { doc_id, server_id, version, request, tokens } => step
            == if state.takes(
            config.semantic_tokens,
            doc_id,
            version,
            Feature::SemanticTokens,
            request,
        ) {
            LspStep::SemanticTokens { doc_id, server_id, tokens }
        } else {
            LspStep::Nothing
        },
        LspTask::ApplyInlineCompletion { doc_id, version, request, completion } => step
            == if state.takes(
            config.inline_completion,
            doc_id,
            version,
            Feature::InlineCompletion,
            request,
        ) {
            LspStep::InlineCompletion { doc_id, completion }
        } else {
            LspStep::Nothing
        },
        LspTask::ApplyInlineValues { doc_id, expected_version, request, values } => step
            == if state.takes(
            config.inline_values,
            doc_id,
            expected_version,
            Feature::InlineValues,
            request,
        ) {
            LspStep::InlineValues { doc_id, values }
        } else {
            LspStep::Nothing
        },
        LspTask::ApplyFoldingRanges { doc_id, expected_version, request, folds, views } => {
            step matches LspStep::Folds { views: replaced, folds: set } && set == folds
                && replaced@ == if state.takes(
                config.folding && config.fold_on_open,
                doc_id,
                expected_version,
                Feature::FoldingRange,
                request,
            ) {
                folding::replaced_views(views@, doc_id, true)
            } else {
                Seq::<u64>::empty()
            }
        },
        LspTask::ExecuteCommand { server_takes_commands, command } => {
            step matches LspStep::Command(outcome) && actions::command_outcome(
                server_takes_commands,
                command,
                outcome,
            )
        },
        LspTask::ApplyResolvedCodeLens {
            doc_id,
            expected_version,
            server_id,
            original,
            resolved,
            command,
            lenses,
        } => {
            step matches LspStep::LensResolved { doc_id: shown, lenses: after, outcome } && shown
                == doc_id && actions::lens_resolved(
                state.spec_version(doc_id) == Some(expected_version),
                lenses@,
                StoredLens { server_id, lens: resolved, resolved: true },
                original@,
                command,
                after@,
                outcome,
            )
        },
        LspTask::OpenResolvedDocumentLink { doc_id, expected_version, target } => {
            step matches LspStep::FollowLink(outcome) && actions::link_followed(
                state.spec_version(doc_id) == Some(expected_version),
                target,
                outcome,
            )
        },
        LspTask::ApplyRenameEdit { doc_id, expected_version, workspace_edit } => {
            step matches LspStep::Rename(outcome) && actions::rename_outcome(
                state.spec_version(doc_id) == Some(expected_version),
                workspace_edit,
                outcome,
            )
        },
        LspTask::ApplyCodeAction { workspace_edit, command } => step == LspStep::<P>::CodeAction(
            actions::code_action_effect(workspace_edit, command),
        ),
        LspTask::RequestInlineValues { .. } => true,
    }
}

/// Ranges of an answer are selected, if any is in the text.
pub open spec fn selection_done<P>(
    ranges: Seq<Option<(usize, usize)>>,
    cursor: usize,
    step: LspStep<P>,
) -> bool {
    if actions::present(ranges).len() > 0 {
        step matches LspStep::Select(selected) && actions::selects(selected, ranges, cursor)
    } else {
        step is Nothing
    }
}

/// Asks for the colors in a document.
pub fn request_document_colors(state: &mut LspState, doc_id: u64) -> (r: Option<FeatureRequest>)
    requires
        old(state).wf(),
        old(state).can_ask(doc_id),
    ensures
        final(state).wf(),
        old(state).asks(old(state).config.color_swatches, Feature::DocumentColors, doc_id, *final(state), r),
{
    let enabled = state.config.color_swatches;
    request_feature(enabled, Feature::DocumentColors, &mut state.documents, doc_id)
}

/// Asks for the code lenses of a document.
pub fn request_code_lenses(state: &mut LspState, doc_id: u64) -> (r: Option<FeatureRequest>)
    requires
        old(state).wf(),
        old(state).can_ask(doc_id),
    ensures
        final(state).wf(),
        old(state).asks(old(state).config.code_lens, Feature::CodeLens, doc_id, *final(state), r),
{
    let enabled = state.config.code_lens;
    request_feature(enabled, Feature::CodeLens, &mut state.documents, doc_id)
}

/// Asks for the links in a document.
pub fn request_document_links(state: &mut LspState, doc_id: u64) -> (r: Option<FeatureRequest>)
    requires
        old(state).wf(),
        old(state).can_ask(doc_id),
    ensures
        final(state).wf(),
        old(state).asks(old(state).config.document_links, Feature::DocumentLinks, doc_id, *final(state), r),
{
    let enabled = state.config.document_links;
    request_feature(enabled, Feature::DocumentLinks, &mut state.documents, doc_id)
}

/// Asks what can be folded in a document, where that is folded on opening.
pub fn request_folding_ranges(state: &mut LspState, doc_id: u64) -> (r: Option<FeatureRequest>)
    requires
        old(state).wf(),
        old(state).can_ask(doc_id),
    ensures
        final(state).wf(),
        old(state).asks(old(state).config.folding && old(state).config.fold_on_open, Feature::FoldingRange, doc_id, *final(state), r),
{
    let enabled = folding_ranges_are_needed(state.config.folding, state.config.fold_on_open);
    request_feature(enabled, Feature::FoldingRange, &mut state.documents, doc_id)
}

/// What is kept of tokens that have come back: all, if the answer still counts.
pub fn apply_semantic_tokens<T>(
    state: &LspState,
    doc_id: u64,
    version: i32,
    request: u64,
    tokens: T,
) -> (r: Option<T>)
    requires
        state.wf(),
    ensures
        r == if state.takes(
            state.config.semantic_tokens,
            doc_id,
            version,
            Feature::SemanticTokens,
            request,
        ) {
            Some(tokens)
        } else {
            None
        },
{
    let enabled = state.config.semantic_tokens;
    let feature = Feature::SemanticTokens;
    if accepts_answer(enabled, &state.documents, doc_id, version, feature, request) {
        Some(tokens)
    } else {
        None
    }
}

/// What is kept of a completion that has come back.
pub fn apply_inline_completion<T>(
    state: &LspState,
    doc_id: u64,
    version: i32,
    request: u64,
    completion: T,
) -> (r: Option<T>)
    requires
        state.wf(),
    ensures
        r == if state.takes(
            state.config.inline_completion,
            doc_id,
            version,
            Feature::InlineCompletion,
            request,
        ) {
            Some(completion)
        } else {
            None
        },
{
    let enabled = state.config.inline_completion;
    let feature = Feature::InlineCompletion;
    if accepts_answer(enabled, &state.documents, doc_id, version, feature, request) {
        Some(completion)
    } else {
        None
    }
}

/// What is kept of values that have come back.
pub fn apply_inline_values<T>(
    state: &LspState,
    doc_id: u64,
    expected_version: i32,
    request: u64,
    values: T,
) -> (r: Option<T>)
    requires
        state.wf(),
    ensures
        r == if state.takes(
            state.config.inline_values,
            doc_id,
            expected_version,
            Feature::InlineValues,
            request,
        ) {
            Some(values)
        } else {
            None
        },
{
    let enabled = state.config.inline_values;
    let feature = Feature::InlineValues;
    if accepts_answer(enabled, &state.documents, doc_id, expected_version, feature, request) {
        Some(values)
    } else {
        None
    }
}

fn select<P>(ranges: &Vec<Option<(usize, usize)>>, cursor: usize) -> (r: LspStep<P>)
    ensures
        selection_done(ranges@, cursor, r),
{
    match select_ranges(ranges, cursor) {
        Some(selected) => LspStep::Select(selected),
        None => LspStep::Nothing,
    }
}

/// Takes in an answer.
pub fn apply_lsp_task<P>(state: &mut LspState, task: LspTask<P>) -> (r: LspStep<P>)
    requires
        old(state).wf(),
        task matches LspTask::RequestInlineValues { doc_id, .. } ==> old(state).can_ask(doc_id),
    ensures
        final(state).wf(),
        task_done(*old(state), task, *final(state), r),
{
    match task {
        LspTask::RequestInlineValues { doc_id, stopped_at_frame, can_request } => {
            let enabled = state.config.inline_values;
            match request_inline_values(
                enabled,
                stopped_at_frame,
                &mut state.documents,
                doc_id,
                can_request,
            ) {
                Some(request) => LspStep::AskForValues(request),
                None => LspStep::Nothing,
            }
        },
        task => apply_answer(state, task),
    }
}

fn apply_answer<P>(state: &LspState, task: LspTask<P>) -> (r: LspStep<P>)
    requires
        state.wf(),
        !(task is RequestInlineValues),
    ensures
        answer_done(*state, task, r),
{
    match task {
        LspTask::AttachDocumentColors { doc_id, expected_version, request, colors } => {
            let update = attach_document_colors(
                state.config.color_swatches,
                &state.documents,
                doc_id,
                expected_version,
                request,
                colors,
            );
            LspStep::Colors { doc_id, update }
        },
        LspTask::StartPullDiagnostics(target) => {
            if should_start_pull_diagnostics(&state.pulled, &state.generations, &target) {
                LspStep::StartDiagnostics(target)
            } else {
                LspStep::AbandonDiagnostics(target)
            }
        },
        LspTask::PullDiagnosticsResponse { target, provider_server, uri, answer, documents } => {
            let current = answer_is_current(
                &state.pulled,
                &state.generations,
                &target,
                provider_server,
                uri.as_str(),
            );
            LspStep::Diagnostics(
                apply_pull_diagnostics_response(&target, current, answer, &documents),
            )
        },
        LspTask::RequestSignature { servers, before_cursor, asked } => LspStep::SignatureHelp(
            request_signature_help(&servers, before_cursor.as_slice(), asked),
        ),
        LspTask::SelectDocumentHighlights { ranges, cursor } => select(&ranges, cursor),
        LspTask::ApplyLinkedEditingRanges { ranges, cursor } => select(&ranges, cursor),
        LspTask::ApplyInlayHints { view_exists, view_id, doc_id, server_id, lines, hints } => {
            let document_exists = state.version(doc_id).is_some();
            match apply_inlay_hints(
                state.config.inlay_hints,
                view_exists,
                document_exists,
                hints,
                state.config.inlay_hints_limit,
            ) {
                Some(hints) => LspStep::InlayHints { view_id, doc_id, server_id, lines, hints },
                None => LspStep::Nothing,
            }
        },
        LspTask::ApplyCodeLenses { doc_id, expected_version, request, lenses } => {
            match apply_code_lenses(
                state.config.code_lens,
                &state.documents,
                doc_id,
                expected_version,
                request,
                lenses,
            ) {
                Some(lenses) => LspStep::CodeLenses { doc_id, lenses },
                None => LspStep::Nothing,
            }
        },
        LspTask::ApplyDocumentLinks { doc_id, expected_version, request, links } => {
            match apply_document_links(&state.documents, doc_id, expected_version, request, links) {
                Some(links) => LspStep::DocumentLinks { doc_id, links },
                None => LspStep::Nothing,
            }
        },
        LspTask::ApplySemanticTokens { doc_id, server_id, version, request, tokens } => {
            match apply_semantic_tokens(state, doc_id, version, request, tokens) {
                Some(tokens) => LspStep::SemanticTokens { doc_id, server_id, tokens },
                None => LspStep::Nothing,
            }
        },
        LspTask::ApplyInlineCompletion { doc_id, version, request, completion } => {
            match apply_inline_completion(state, doc_id, version, request, completion) {
                Some(completion) => LspStep::InlineCompletion { doc_id, completion },
                None => LspStep::Nothing,
            }
        },
        LspTask::ApplyInlineValues { doc_id, expected_version, request, values } => {
            match apply_inline_values(state, doc_id, expected_version, request, values) {
                Some(values) => LspStep::InlineValues { doc_id, values },
                None => LspStep::Nothing,
            }
        },
        LspTask::ApplyFoldingRanges { doc_id, expected_version, request, folds, views } => {
            let views = apply_folding_ranges(
                state.config.folding,
                state.config.fold_on_open,
                &state.documents,
                doc_id,
                expected_version,
                request,
                &views,
            );
            LspStep::Folds { views, folds }
        },
        LspTask::ExecuteCommand { server_takes_commands, command } => LspStep::Command(
            apply_execute_lsp_command(server_takes_commands, command),
        ),
        LspTask::ApplyResolvedCodeLens {
            doc_id,
            expected_version,
            server_id,
            original,
            resolved,
            command,
            lenses,
        } => {
            let mut lenses = lenses;
            let outcome = apply_resolved_code_lens(
                state.version(doc_id),
                expected_version,
                &mut lenses,
                server_id,
                original.as_str(),
                resolved,
                command,
            );
            LspStep::LensResolved { doc_id, lenses, outcome }
        },
        LspTask::OpenResolvedDocumentLink { doc_id, expected_version, target } => {
            LspStep::FollowLink(
                apply_resolved_document_link(state.version(doc_id), expected_version, target),
            )
        },
        LspTask::ApplyRenameEdit { doc_id, expected_version, workspace_edit } => LspStep::Rename(
            apply_rename_edit(state.version(doc_id), expected_version, workspace_edit),
        ),
        LspTask::ApplyCodeAction { workspace_edit, command } => LspStep::CodeAction(
            apply_code_action(workspace_edit, command),
        ),
        LspTask::RequestInlineValues { .. } => LspStep::Nothing,
    }
}

/// An answer about a version that a document no longer has does nothing to it: it gets no
/// colors, lenses, links, tokens, completions, values or folds.
pub proof fn law_answers_about_older_versions_do_nothing<P>(
    state: LspState,
    task: LspTask<P>,
    after: LspState,
    step: LspStep<P>,
)
    requires
        task_done(state, task, after, step),
        task_version(task) matches Some((doc_id, version)) && state.spec_version(doc_id) != Some(
            version,
        ),
    ensures
        after == state,
        match step {
            LspStep::Nothing => true,
            LspStep::Colors { update, .. } => update is Ignore,
            LspStep::Folds { views, .. } => views@.len() == 0,
            _ => false,
        },
{
}

/// The version of a document that an answer about what is shown in it is about.
pub open spec fn task_version<P>(task: LspTask<P>) -> Option<(u64, i32)> {
    match task {
        LspTask::AttachDocumentColors { doc_id, expected_version, .. } => Some(
            (doc_id, expected_version),
        ),
        LspTask::ApplyCodeLenses { doc_id, expected_version, .. } => Some(
            (doc_id, expected_version),
        ),
        LspTask::ApplyDocumentLinks { doc_id, expected_version, .. } => Some(
            (doc_id, expected_version),
        ),
        LspTask::ApplySemanticTokens { doc_id, version, .. } => Some((doc_id, version)),
        LspTask::ApplyInlineCompletion { doc_id, version, .. } => Some((doc_id, version)),
        LspTask::ApplyInlineValues { doc_id, expected_version, .. } => Some(
            (doc_id, expected_version),
        ),
        LspTask::ApplyFoldingRanges { doc_id, expected_version, .. } => Some(
            (doc_id, expected_version),
        ),
        _ => None,
    }
}

/// An answer that comes in time to the last question about a feature that is wanted is shown, in
/// the document it is about.
pub proof fn law_answers_in_time_are_shown<P>(
    before: LspState,
    after: LspState,
    doc_id: u64,
    server_id: u64,
    given: P,
    tokens: LspStep<P>,
    completion: LspStep<P>,
    values: LspStep<P>,
)
    requires
        before.documents@.dom().contains(doc_id),
        before.config.semantic_tokens,
        before.config.inline_completion,
        before.config.inline_values,
        task_done(
            before,
            LspTask::ApplySemanticTokens {
                doc_id,
                server_id,
                version: before.documents@[doc_id].version,
                request: before.documents@[doc_id].requests.semantic_tokens,
                tokens: given,
            },
            after,
            tokens,
        ),
        task_done(
            before,
            LspTask::ApplyInlineCompletion {
                doc_id,
                version: before.documents@[doc_id].version,
                request: before.documents@[doc_id].requests.inline_completion,
                completion: given,
            },
            after,
            completion,
        ),
        task_done(
            before,
            LspTask::ApplyInlineValues {
                doc_id,
                expected_version: before.documents@[doc_id].version,
                request: before.documents@[doc_id].requests.inline_values,
                values: given,
            },
            after,
            values,
        ),
    ensures
        after == before,
        tokens == (LspStep::SemanticTokens { doc_id, server_id, tokens: given }),
        completion == (LspStep::InlineCompletion { doc_id, completion: given }),
        values == (LspStep::InlineValues { doc_id, values: given }),
{
}

/// What is not wanted is not shown, whenever it comes.
pub proof fn law_unwanted_answers_are_not_shown<P>(
    before: LspState,
    after: LspState,
    doc_id: u64,
    server_id: u64,
    version: i32,
    request: u64,
    given: P,
    lenses: Vec<Located<P>>,
    tokens: LspStep<P>,
    lens: LspStep<P>,
)
    requires
        !before.config.semantic_tokens,
        !before.config.code_lens,
        task_done(
            before,
            LspTask::ApplySemanticTokens { doc_id, server_id, version, request, tokens: given },
            after,
            tokens,
        ),
        task_done(
            before,
            LspTask::ApplyCodeLenses { doc_id, expected_version: version, request, lenses },
            after,
            lens,
        ),
    ensures
        tokens is Nothing,
        lens is Nothing,
{
}

/// To ask about a document changes what was asked about that document, and nothing else.
pub proof fn law_to_ask_changes_no_other_document(
    before: LspState,
    enabled: bool,
    feature: Feature,
    doc_id: u64,
    after: LspState,
    r: Option<FeatureRequest>,
    other: u64,
)
    requires
        before.asks(enabled, feature, doc_id, after, r),
        other != doc_id,
    ensures
        after.config == before.config,
        after.pulled == before.pulled,
        after.generations == before.generations,
        after.documents@.dom().contains(other) == before.documents@.dom().contains(other),
        after.documents@.dom().contains(other) ==> after.documents@[other]
            == before.documents@[other],
        !enabled ==> r is None && after.documents@ == before.documents@,
        r is Some ==> r->0.doc_id == doc_id && before.documents@.dom().contains(doc_id),
{
}

/// The ranges that lie in the text are selected, if there are any, and the one that the cursor is
/// in becomes the main one.
pub proof fn law_ranges_are_selected<P>(
    ranges: Seq<Option<(usize, usize)>>,
    cursor: usize,
    step: LspStep<P>,
    i: int,
)
    requires
        selection_done(ranges, cursor, step),
        0 <= i < ranges.len(),
        ranges[i] is Some,
    ensures
        step matches LspStep::Select(selected) && selected.ranges@.contains(ranges[i]->0),
{
    lemma_present_contains(ranges, i);
}

proof fn lemma_present_contains(ranges: Seq<Option<(usize, usize)>>, i: int)
    requires
        0 <= i < ranges.len(),
        ranges[i] is Some,
    ensures
        actions::present(ranges).contains(ranges[i]->0),
    decreases ranges.len(),
{
    let front = ranges.drop_last();
    let rest = actions::present(front);
    let all = actions::present(ranges);
    if i < front.len() {
        lemma_present_contains(front, i);
        assert(all[rest.index_of(front[i]->0)] == ranges[i]->0);
    } else {
        assert(all[rest.len() as int] == ranges[i]->0);
    }
}

/// Where no range lies in the text nothing is selected.
pub proof fn law_nothing_is_selected_without_ranges<P>(
    ranges: Seq<Option<(usize, usize)>>,
    cursor: usize,
    step: LspStep<P>,
)
    requires
        selection_done(ranges, cursor, step),
        forall|i: int| 0 <= i < ranges.len() ==> #[trigger] ranges[i] is None,
    ensures
        step is Nothing,
{
    lemma_nothing_present(ranges);
}

proof fn lemma_nothing_present(ranges: Seq<Option<(usize, usize)>>)
    requires
        forall|i: int| 0 <= i < ranges.len() ==> #[trigger] ranges[i] is None,
    ensures
        actions::present(ranges).len() == 0,
    decreases ranges.len(),
{
    if ranges.len() > 0 {
        let front = ranges.drop_last();
        assert(ranges[ranges.len() - 1] is None);
        assert forall|i: int| 0 <= i < front.len() implies #[trigger] front[i] is None by {
            assert(front[i] == ranges[i]);
        }
        lemma_nothing_present(front);
    }
}

/// Whatever a task is, it leaves the configuration and what diagnostics were asked for alone.
pub proof fn law_tasks_leave_the_rest_alone<P>(
    before: LspState,
    task: LspTask<P>,
    after: LspState,
    step: LspStep<P>,
)
    requires
        task_done(before, task, after, step),
    ensures
        after.config == before.config,
        after.pulled == before.pulled,
        after.generations == before.generations,
        !(task is RequestInlineValues) ==> after == before,
        task is RequestInlineValues && !before.config.inline_values ==> step is Nothing
            && after.documents@ == before.documents@,
{
}

} // verus!
