//! What finished background work does to the editor.
//!
//! Work that ran beside the editor comes back as a [`RuntimeTaskEvent`].
//! [`apply_runtime_task_event`] decides what it does, given what the editor looks like by then:
//! what came too late (the document has changed, the view is gone, the configuration is
//! another) does nothing.

pub mod assistant;
pub mod code_actions_on_save;
pub mod dap;
pub mod file_operation;
pub mod language_server;
pub mod plugin;

use vstd::prelude::*;

use crate::collections;
use crate::collections::{contains_id, insert_all_ascending, Ident};
use crate::compositor::frame::Severity;
use crate::effect::dap::task::DapTask;
use crate::effect::file_operation::FileTask;
use crate::effect::language_server::task::LspTask;
use crate::text;
use crate::text::{decimal_text, join, place_text, same_text};

verus! {

/// A document as far as late work is concerned.
#[derive(Debug, Clone, Copy, PartialEq, Eq, Structural)]
pub struct DocumentState {
    pub id: u64,
    pub version: i32,
    pub modified: bool,
    /// Whether its syntax tree is older than its text.
    pub syntax_stale: bool,
}

#[derive(Debug, Clone, Copy, PartialEq, Eq, Structural)]
pub struct ViewState {
    pub id: u64,
    pub doc: u64,
}

/// The editor as far as late work is concerned.
#[derive(Debug)]
pub struct EditorState {
    pub documents: Vec<DocumentState>,
    pub views: Vec<ViewState>,
    /// Whether text is being typed in.
    pub inserting: bool,
    /// Whether authors of lines are looked up without being asked for.
    pub blame_auto_fetch: bool,
    /// Which configuration is in force.
    pub config_generation: u64,
    /// Which set of runtime files is in force.
    pub assets_generation: u64,
}

/// The document with this id.
pub open spec fn document_with(documents: Seq<DocumentState>, id: u64) -> Option<DocumentState>
    decreases documents.len(),
{
    if documents.len() == 0 {
        None
    } else if documents[0].id == id {
        Some(documents[0])
    } else {
        document_with(documents.drop_first(), id)
    }
}

/// The first view of a document.
pub open spec fn first_view_of(views: Seq<ViewState>, doc: u64) -> Option<u64>
    decreases views.len(),
{
    if views.len() == 0 {
        None
    } else if views[0].doc == doc {
        Some(views[0].id)
    } else {
        first_view_of(views.drop_first(), doc)
    }
}

impl EditorState {
    pub open spec fn spec_document(self, id: u64) -> Option<DocumentState> {
        document_with(self.documents@, id)
    }

    /// The document is there, in this version.
    pub open spec fn is_at(self, id: u64, version: i32) -> bool {
        self.spec_document(id) matches Some(doc) && doc.version == version
    }

    /// The view is there and shows the document.
    pub open spec fn shows(self, view: u64, doc: u64) -> bool {
        exists|i: int|
            0 <= i < self.views@.len() && (#[trigger] self.views@[i]).id == view
                && self.views@[i].doc == doc
    }

    pub open spec fn has_view(self, view: u64) -> bool {
        exists|i: int| 0 <= i < self.views@.len() && (#[trigger] self.views@[i]).id == view
    }

    pub fn document(&self, id: u64) -> (r: Option<DocumentState>)
        ensures
            r == self.spec_document(id),
    {
        let mut i: usize = 0;
        assert(self.documents@.skip(0) =~= self.documents@);
        while i < self.documents.len()
            invariant
                i <= self.documents@.len(),
                document_with(self.documents@, id) == document_with(
                    self.documents@.skip(i as int),
                    id,
                ),
            decreases self.documents@.len() - i,
        {
            assert(self.documents@.skip(i as int).drop_first() =~= self.documents@.skip(i + 1));
            if self.documents[i].id == id {
                return Some(self.documents[i]);
            }
            i += 1;
        }
        None
    }

    fn document_is_at(&self, id: u64, version: i32) -> (r: bool)
        ensures
            r == self.is_at(id, version),
    {
        match self.document(id) {
            Some(doc) => doc.version == version,
            None => false,
        }
    }

    fn view_shows(&self, view: u64, doc: u64) -> (r: bool)
        ensures
            r == self.shows(view, doc),
    {
        let mut i: usize = 0;
        while i < self.views.len()
            invariant
                i <= self.views@.len(),
                forall|j: int|
                    0 <= j < i ==> !((#[trigger] self.views@[j]).id == view && self.views@[j].doc
                        == doc),
            decreases self.views@.len() - i,
        {
            if self.views[i].id == view && self.views[i].doc == doc {
                assert(self.views@[i as int].id == view);
                return true;
            }
            i += 1;
        }
        false
    }

    fn contains_view(&self, view: u64) -> (r: bool)
        ensures
            r == self.has_view(view),
    {
        let mut i: usize = 0;
        while i < self.views.len()
            invariant
                i <= self.views@.len(),
                forall|j: int| 0 <= j < i ==> (#[trigger] self.views@[j]).id != view,
            decreases self.views@.len() - i,
        {
            if self.views[i].id == view {
                assert(self.views@[i as int].id == view);
                return true;
            }
            i += 1;
        }
        false
    }

    fn view_of(&self, doc: u64) -> (r: Option<u64>)
        ensures
            r == first_view_of(self.views@, doc),
    {
        let mut i: usize = 0;
        assert(self.views@.skip(0) =~= self.views@);
        while i < self.views.len()
            invariant
                i <= self.views@.len(),
                first_view_of(self.views@, doc) == first_view_of(self.views@.skip(i as int), doc),
            decreases self.views@.len() - i,
        {
            assert(self.views@.skip(i as int).drop_first() =~= self.views@.skip(i + 1));
            if self.views[i].doc == doc {
                return Some(self.views[i].id);
            }
            i += 1;
        }
        None
    }
}

/// What of a document is asked for anew.
#[derive(Debug, Clone, Copy, PartialEq, Eq, Structural)]
pub enum LspFeatureRefreshKind {
    CodeLens,
    DocumentLinks,
    FoldingRanges,
    SemanticTokens,
    InlineCompletion,
}

/// One of them, of one document.
#[derive(Debug, Clone, Copy, PartialEq, Eq, Structural)]
pub struct LspFeatureRefreshEvent {
    pub doc_id: u64,
    pub kind: LspFeatureRefreshKind,
}

impl Ident for LspFeatureRefreshEvent {
    fn same(&self, other: &Self) -> (r: bool) {
        *self == *other
    }
}

/// How the installation of a package is going.
#[derive(Debug)]
pub enum OpEvent {
    Started { name: String },
    Progress { name: String, message: String },
    Done { name: String },
    Failed { name: String, message: String },
}

/// What somebody is told.
#[derive(Debug)]
pub enum Note {
    Text(String),
    ShellResultTooLate,
    BlameAvailable,
    Pkg(OpEvent),
    /// A document could not be saved.
    SaveFailed(String),
}

impl Note {
    pub open spec fn spec_text(self) -> Seq<char> {
        match self {
            Note::Text(text) => text@,
            Note::ShellResultTooLate => "Buffer changed before shell command completed"@,
            Note::BlameAvailable => "Blame for this file is now available"@,
            Note::Pkg(OpEvent::Started { name }) => "pkg: started "@ + name@,
            Note::Pkg(OpEvent::Progress { name, message }) => "pkg "@ + name@ + ": "@ + message@,
            Note::Pkg(OpEvent::Done { name }) => "pkg: finished "@ + name@,
            Note::Pkg(OpEvent::Failed { name, message }) => "pkg: "@ + name@ + " failed: "@
                + message@,
            Note::SaveFailed(error) => "Error saving: "@ + error@,
        }
    }

    /// How it is worded.
    pub fn text(&self) -> (r: String)
        ensures
            r@ == self.spec_text(),
    {
        match self {
            Note::Text(text) => text.clone(),
            Note::ShellResultTooLate => "Buffer changed before shell command completed".to_owned(),
            Note::BlameAvailable => "Blame for this file is now available".to_owned(),
            Note::Pkg(OpEvent::Started { name }) => join("pkg: started ", name.as_str()),
            Note::Pkg(OpEvent::Progress { name, message }) => {
                let mut text = join("pkg ", name.as_str());
                text.append(": ");
                text.append(message.as_str());
                text
            },
            Note::Pkg(OpEvent::Done { name }) => join("pkg: finished ", name.as_str()),
            Note::Pkg(OpEvent::Failed { name, message }) => {
                let mut text = join("pkg: ", name.as_str());
                text.append(" failed: ");
                text.append(message.as_str());
                text
            },
            Note::SaveFailed(error) => join("Error saving: ", error.as_str()),
        }
    }
}

/// What kind of thing was given to an assistant to look at.
#[derive(Debug, Clone, Copy, PartialEq, Eq, Structural)]
pub enum ContextKind {
    Selection,
    Symbol,
    File,
    Diagnostics,
    Diff,
    /// It is gone, and nobody knows any more.
    Unknown,
}

pub open spec fn context_label(kind: ContextKind) -> Seq<char> {
    match kind {
        ContextKind::Selection => "selection"@,
        ContextKind::Symbol => "symbol"@,
        ContextKind::File => "file"@,
        ContextKind::Diagnostics => "diagnostics"@,
        ContextKind::Diff => "diff"@,
        ContextKind::Unknown => "unknown"@,
    }
}

/// What plugins call the kind.
pub fn context_kind_label(kind: ContextKind) -> (r: &'static str)
    ensures
        r@ == context_label(kind),
{
    match kind {
        ContextKind::Selection => "selection",
        ContextKind::Symbol => "symbol",
        ContextKind::File => "file",
        ContextKind::Diagnostics => "diagnostics",
        ContextKind::Diff => "diff",
        ContextKind::Unknown => "unknown",
    }
}

/// Work on assistants. What is only handed on is a `P`.
#[derive(Debug)]
pub enum AssistantTask<P> {
    RestoreHistoryThread(P),
    ConnectBackend(P),
    NewThreadFromActiveBackend,
    AttachContext { kind: ContextKind, item: P },
    DetachContext(P),
    SubmitPrompt(P),
    CloseActiveThread,
    ActivateThread { thread: u64, open_panel: bool },
    RemovePanel,
    CycleThread { delta: i64 },
    ToggleFollow,
    CancelActiveThread,
    OpenSelectedEntryScratch,
    OpenSelectedTurnChanges,
    OpenActiveThreadChanges,
    ApplyHistoryEntries(P),
    DeleteHistoryThread { thread: u64, delete_remote: bool },
    FetchHistoryPage(P),
    LoadHistoryThread { thread: u64, activate: bool, open_panel: bool },
    BootstrapHistory(P),
}

/// What plugins hear of when work on assistants is done.
#[derive(Debug, Clone, Copy, PartialEq, Eq, Structural)]
pub enum AssistantNews {
    /// Each thread that is there now and was not before.
    NewThreads,
    /// What the active thread looks at has changed.
    ContextChanged { attached: bool, kind: ContextKind },
    /// The active thread got a message.
    UserPrompt,
    /// The thread that was active before was closed.
    Closed,
}

pub open spec fn news_of<P>(task: AssistantTask<P>) -> Option<AssistantNews> {
    match task {
        AssistantTask::RestoreHistoryThread(_) | AssistantTask::ConnectBackend(_)
        | AssistantTask::NewThreadFromActiveBackend => Some(AssistantNews::NewThreads),
        AssistantTask::AttachContext { kind, .. } => Some(
            AssistantNews::ContextChanged { attached: true, kind },
        ),
        AssistantTask::DetachContext(_) => Some(
            AssistantNews::ContextChanged { attached: false, kind: ContextKind::Unknown },
        ),
        AssistantTask::SubmitPrompt(_) => Some(AssistantNews::UserPrompt),
        AssistantTask::CloseActiveThread => Some(AssistantNews::Closed),
        _ => None,
    }
}

fn assistant_news<P>(task: &AssistantTask<P>) -> (r: Option<AssistantNews>)
    ensures
        r == news_of(*task),
{
    match task {
        AssistantTask::RestoreHistoryThread(_) | AssistantTask::ConnectBackend(_)
        | AssistantTask::NewThreadFromActiveBackend => Some(AssistantNews::NewThreads),
        AssistantTask::AttachContext { kind, .. } => Some(
            AssistantNews::ContextChanged { attached: true, kind: *kind },
        ),
        AssistantTask::DetachContext(_) => Some(
            AssistantNews::ContextChanged { attached: false, kind: ContextKind::Unknown },
        ),
        AssistantTask::SubmitPrompt(_) => Some(AssistantNews::UserPrompt),
        AssistantTask::CloseActiveThread => Some(AssistantNews::Closed),
        _ => None,
    }
}

/// A thread of the assistant.
#[derive(Debug, Clone, PartialEq, Eq)]
pub struct ThreadInfo {
    pub id: u64,
    pub title: Option<String>,
    /// The directory that it works in.
    pub scope_cwd: String,
}

impl ThreadInfo {
    fn copy(&self) -> (r: ThreadInfo)
        ensures
            r == *self,
    {
        ThreadInfo {
            id: self.id,
            title: match &self.title {
                Some(title) => Some(title.clone()),
                None => None,
            },
            scope_cwd: self.scope_cwd.clone(),
        }
    }
}

/// The threads that are there after the work and were not before.
pub open spec fn new_threads(before: Seq<u64>, after: Seq<ThreadInfo>) -> Seq<ThreadInfo> {
    after.filter(|thread: ThreadInfo| !before.contains(thread.id))
}

/// The threads that plugins are told about as new.
pub fn emit_new_thread_events(before: &Vec<u64>, after: &Vec<ThreadInfo>) -> (r: Vec<ThreadInfo>)
    ensures
        r@ == new_threads(before@, after@),
{
    let mut fresh: Vec<ThreadInfo> = Vec::new();
    let mut i: usize = 0;
    proof {
        reveal(Seq::filter);
    }
    while i < after.len()
        invariant
            i <= after@.len(),
            fresh@ == new_threads(before@, after@.take(i as int)),
        decreases after@.len() - i,
    {
        proof {
            reveal(Seq::filter);
            assert(after@.take(i + 1).drop_last() =~= after@.take(i as int));
        }
        if !contains_id(before, after[i].id) {
            fresh.push(after[i].copy());
        }
        i += 1;
    }
    assert(after@.take(i as int) =~= after@);
    fresh
}

/// What kind of message a thread got.
#[derive(Debug, Clone, Copy, PartialEq, Eq, Structural)]
pub enum MessageKind {
    UserPrompt,
}

/// What plugins call the kind.
pub fn message_kind_label(kind: MessageKind) -> (r: &'static str)
    ensures
        r@ == match kind {
            MessageKind::UserPrompt => "user_prompt"@,
        },
{
    match kind {
        MessageKind::UserPrompt => "user_prompt",
    }
}

/// What plugins are told.
#[derive(Debug, Clone, PartialEq, Eq)]
#[allow(inconsistent_fields)]
pub enum AssistantEvent {
    ThreadCreated(ThreadInfo),
    ContextChanged { thread: u64, attached: bool, kind: ContextKind },
    MessageReceived { thread: u64, entry_id: u64, kind: MessageKind },
    ThreadClosed { thread: u64 },
}

/// What plugins are told of the news: nothing where it is about an active thread and there is
/// none. A thread that was closed is the one that was active before the work, any other the one
/// that is active after it.
pub open spec fn told(
    news: AssistantNews,
    active_before: Option<u64>,
    active_after: Option<u64>,
    before: Seq<u64>,
    after: Seq<ThreadInfo>,
) -> Seq<AssistantEvent> {
    match news {
        AssistantNews::NewThreads => new_threads(before, after).map_values(
            |thread: ThreadInfo| AssistantEvent::ThreadCreated(thread),
        ),
        AssistantNews::ContextChanged { attached, kind } => match active_after {
            Some(thread) => seq![AssistantEvent::ContextChanged { thread, attached, kind }],
            None => seq![],
        },
        AssistantNews::UserPrompt => match active_after {
            Some(thread) => seq![
                AssistantEvent::MessageReceived { thread, entry_id: 0, kind: MessageKind::UserPrompt },
            ],
            None => seq![],
        },
        AssistantNews::Closed => match active_before {
            Some(thread) => seq![AssistantEvent::ThreadClosed { thread }],
            None => seq![],
        },
    }
}

/// What plugins are told of the news, where `before` and `after` are the threads before and after
/// the work.
pub fn assistant_events(
    news: AssistantNews,
    active_before: Option<u64>,
    active_after: Option<u64>,
    before: &Vec<u64>,
    after: &Vec<ThreadInfo>,
) -> (r: Vec<AssistantEvent>)
    ensures
        r@ == told(news, active_before, active_after, before@, after@),
{
    let mut events: Vec<AssistantEvent> = Vec::new();
    match news {
        AssistantNews::NewThreads => {
            let fresh = emit_new_thread_events(before, after);
            let mut i: usize = 0;
            while i < fresh.len()
                invariant
                    i <= fresh@.len(),
                    events@ =~= fresh@.take(i as int).map_values(
                        |thread: ThreadInfo| AssistantEvent::ThreadCreated(thread),
                    ),
                decreases fresh@.len() - i,
            {
                events.push(AssistantEvent::ThreadCreated(fresh[i].copy()));
                i += 1;
            }
            assert(fresh@.take(i as int) =~= fresh@);
        },
        AssistantNews::ContextChanged { attached, kind } => {
            if let Some(thread) = active_after {
                events.push(AssistantEvent::ContextChanged { thread, attached, kind });
            }
        },
        AssistantNews::UserPrompt => {
            if let Some(thread) = active_after {
                let kind = MessageKind::UserPrompt;
                events.push(AssistantEvent::MessageReceived { thread, entry_id: 0, kind });
            }
        },
        AssistantNews::Closed => {
            if let Some(thread) = active_before {
                events.push(AssistantEvent::ThreadClosed { thread });
            }
        },
    }
    assert(events@ =~= told(news, active_before, active_after, before@, after@));
    events
}

#[derive(Debug, Clone, Copy, PartialEq, Eq, Structural)]
pub enum AssetKind {
    Grammar,
    Other,
}

/// Runtime files that have changed.
#[derive(Debug)]
pub struct AssetsChange<P> {
    pub change: P,
    pub generation: u64,
    /// The kinds of packages they belong to.
    pub package_kinds: Vec<String>,
    /// The grammars among them, each once and in ascending order.
    pub grammars: Vec<String>,
}

impl<P> AssetsChange<P> {
    pub open spec fn has_package_kind(self, kind: Seq<char>) -> bool {
        exists|i: int| 0 <= i < self.package_kinds@.len() && (#[trigger] self.package_kinds@[i])@ == kind
    }

    /// Runtime files have changed.
    pub fn new(
        change: P,
        generation: u64,
        package_kinds: Vec<String>,
        assets: &Vec<(AssetKind, String)>,
    ) -> (r: Self)
        ensures
            r.change == change,
            r.generation == generation,
            r.package_kinds == package_kinds,
            text::texts(r.grammars@) == grammar_keys(assets@),
    {
        AssetsChange { change, generation, package_kinds, grammars: changed_grammars(assets) }
    }

    fn concerns_agents(&self) -> (r: bool)
        ensures
            r == self.has_package_kind("acp"@),
    {
        let mut i: usize = 0;
        while i < self.package_kinds.len()
            invariant
                i <= self.package_kinds@.len(),
                forall|j: int| 0 <= j < i ==> (#[trigger] self.package_kinds@[j])@ != "acp"@,
            decreases self.package_kinds@.len() - i,
        {
            if same_text(self.package_kinds[i].as_str(), "acp") {
                assert(self.package_kinds@[i as int]@ == "acp"@);
                return true;
            }
            i += 1;
        }
        false
    }
}

/// The grammars among runtime files, each once and in ascending order.
pub open spec fn grammar_keys(assets: Seq<(AssetKind, String)>) -> Seq<Seq<char>>
    decreases assets.len(),
{
    if assets.len() == 0 {
        seq![]
    } else {
        let rest = grammar_keys(assets.drop_last());
        let (kind, key) = assets.last();
        if kind == AssetKind::Grammar {
            text::placed(rest, key@)
        } else {
            rest
        }
    }
}

/// A grammar of that name is among the runtime files.
pub open spec fn names_grammar(assets: Seq<(AssetKind, String)>, name: Seq<char>) -> bool {
    exists|i: int|
        0 <= i < assets.len() && (#[trigger] assets[i]).0 == AssetKind::Grammar && assets[i].1@
            == name
}

/// The grammars that have changed are listed in ascending order, so none of them twice, and no
/// others are.
pub proof fn law_changed_grammars_ascend(assets: Seq<(AssetKind, String)>)
    ensures
        text::ascending(grammar_keys(assets)),
        forall|name: Seq<char>| #[trigger]
            grammar_keys(assets).contains(name) <==> names_grammar(assets, name),
    decreases assets.len(),
{
    if assets.len() > 0 {
        let before = assets.drop_last();
        law_changed_grammars_ascend(before);
        let (kind, key) = assets.last();
        text::law_placing_keeps_the_order(grammar_keys(before), key@);
        assert forall|name: Seq<char>| #[trigger]
            grammar_keys(assets).contains(name) <==> names_grammar(assets, name) by {
            assert(grammar_keys(before).contains(name) <==> names_grammar(before, name));
            if names_grammar(before, name) {
                let i = choose|i: int|
                    0 <= i < before.len() && (#[trigger] before[i]).0 == AssetKind::Grammar
                        && before[i].1@ == name;
                assert(assets[i] == before[i]);
            }
            if names_grammar(assets, name) {
                let i = choose|i: int|
                    0 <= i < assets.len() && (#[trigger] assets[i]).0 == AssetKind::Grammar
                        && assets[i].1@ == name;
                if i < before.len() {
                    assert(before[i] == assets[i]);
                }
            }
            if kind == AssetKind::Grammar && key@ == name {
                assert(assets[assets.len() - 1] == (kind, key));
            }
        }
    }
}

fn changed_grammars(assets: &Vec<(AssetKind, String)>) -> (r: Vec<String>)
    ensures
        text::texts(r@) == grammar_keys(assets@),
{
    let mut grammars: Vec<String> = Vec::new();
    let mut i: usize = 0;
    assert(assets@.take(0) =~= seq![]);
    assert(text::texts(grammars@) =~= seq![]);
    while i < assets.len()
        invariant
            i <= assets@.len(),
            text::texts(grammars@) == grammar_keys(assets@.take(i as int)),
        decreases assets@.len() - i,
    {
        assert(assets@.take(i + 1).drop_last() =~= assets@.take(i as int));
        if assets[i].0 == AssetKind::Grammar {
            place_text(&mut grammars, assets[i].1.as_str());
        }
        i += 1;
    }
    assert(assets@.take(i as int) =~= assets@);
    grammars
}

/// Work that has come back. What is only handed on is a `P`.
#[derive(Debug)]
#[allow(inconsistent_fields)]
pub enum RuntimeTaskEvent<P> {
    Stub,
    ApplySyntax { document: u64, version: i32, syntax: P },
    /// A step of an operation on files.
    FileOperation(FileTask<P>),
    ApplyTransactionIfCurrent { doc_id: u64, view_id: u64, expected_version: i32, transaction: P },
    ApplyShellResult {
        doc_id: u64,
        view_id: u64,
        expected_version: i32,
        transaction: Option<P>,
        selection: Option<P>,
    },
    ApplyCompletionAdditionalEdits {
        doc_id: u64,
        view_id: u64,
        expected_version: i32,
        /// None if there are no edits.
        edits: Option<P>,
    },
    ApplyLspSelectionRange(P),
    DismissNotification { id: u64 },
    ApplyFormattingResult {
        doc_id: u64,
        view_id: u64,
        expected_version: i32,
        format_result: Result<P, String>,
        /// How the document is saved afterwards, if it is.
        write: Option<P>,
    },
    SetEditorError { message: String },
    /// An answer of a language server, or a question to one, about one document.
    LanguageServer(LspTask<P>),
    ApplyOnTypeFormatting { doc_id: u64, view_id: u64, expected_version: i32, edits: P },
    RequestDocumentColorsDebounced { doc_ids: Vec<u64> },
    RequestLspFeaturesDebounced { docs: Vec<LspFeatureRefreshEvent> },
    QueuePullDiagnosticsForDocuments { document_ids: Vec<u64> },
    QueuePullDiagnosticsInterFileSweep { language_servers: Vec<u64> },
    BlameFetchDebounced { doc_id: u64, path: P, line: Option<u32> },
    /// A step of a debugging session.
    Debugger(DapTask<P>),
    PkgEvent(OpEvent),
    RuntimeAssetsChanged(AssetsChange<P>),
    ApplyRuntimeLanguageLoader { generation: u64, changed_grammars: Vec<String>, loader: P },
    ApplyAssistantAgents { config_generation: u64, agents: P },
    PkgOperationFinished {
        warnings: Vec<String>,
        success: bool,
        /// The documents that a missing language server was installed for.
        documents: Vec<u64>,
    },
    RefreshLanguageServers { document_ids: Vec<u64> },
    Assistant(AssistantTask<P>),
    PluginHostRequest(P),
    AutoSaveRun,
}

/// How all documents are saved.
#[derive(Debug, Clone, Copy, PartialEq, Eq, Structural)]
pub struct WriteAllOptions {
    /// Nothing is forced.
    pub safe: bool,
    /// Documents without a path are saved too.
    pub write_scratch: bool,
    /// Documents are formatted first.
    pub auto_format: bool,
}

/// How documents are saved of themselves.
pub open spec fn auto_save_options() -> WriteAllOptions {
    WriteAllOptions { safe: true, write_scratch: false, auto_format: false }
}

/// What the editor does.
#[derive(Debug)]
#[allow(inconsistent_fields)]
pub enum EditorAction<P> {
    InstallSyntax { doc: u64, syntax: P },
    Redraw,
    FileOperation(FileTask<P>),
    ApplyTransaction { doc: u64, view: u64, transaction: P },
    /// What was changed becomes a step that can be undone.
    AppendChangesToHistory { doc: u64, view: u64 },
    DetectIndentAndLineEnding { doc: u64 },
    Select { doc: u64, view: u64, selection: P },
    EnsureCursorInView { doc: u64, view: u64 },
    ApplyEdits { doc: u64, view: u64, edits: P },
    ApplySelectionRange(P),
    DismissNotification { id: u64 },
    SetError(Note),
    SetStatus(Note),
    Notify { note: Note, severity: Severity },
    /// The document is saved; `document_saved` says what follows.
    Save { doc: u64, write: P },
    LanguageServer(LspTask<P>),
    RequestDocumentColors { doc: u64 },
    RequestCodeLenses { doc: u64 },
    RequestDocumentLinks { doc: u64 },
    RequestFoldingRanges { doc: u64 },
    RequestSemanticTokens { doc: u64 },
    RequestInlineCompletion { doc: u64, view: u64, invoked: bool },
    QueueDiagnostics { documents: Vec<u64> },
    /// All documents, on these servers only.
    QueueDiagnosticsSweep { language_servers: Vec<u64> },
    FetchBlame { doc: u64, path: P },
    ShowBlame { doc: u64, line: u32 },
    Debugger(DapTask<P>),
    ReconcileAssets(P),
    RefreshAgents,
    /// The languages are read anew, since these grammars have changed.
    RebuildLanguageLoader { generation: u64, changed_grammars: Vec<String> },
    /// The languages are put in place; `language_loader_installed` says what follows.
    InstallLanguageLoader { generation: u64, changed_grammars: Vec<String>, loader: P },
    SetAgents { agents: P },
    RefreshLanguageServers { doc: u64 },
    Assistant(AssistantTask<P>),
    /// Plugins hear of the news, as `assistant_events` says.
    TellPlugins(AssistantNews),
    PluginHostRequest(P),
    /// All documents that have changed are saved.
    AutoSave(WriteAllOptions),
    /// The syntax of the document is worked out anew, for these runtime files.
    QueueSyntax { doc: u64, generation: u64 },
    /// Whether saving is left for when typing is over.
    DeferAutoSave(bool),
}

pub open spec fn per_document<P>(ids: Seq<u64>, action: spec_fn(u64) -> EditorAction<P>) -> Seq<
    EditorAction<P>,
> {
    ids.map_values(action)
}

/// What asking anew for a feature of a document is. Completions need a view.
pub open spec fn refresh_action<P>(state: EditorState, doc: u64, kind: LspFeatureRefreshKind) -> Option<
    EditorAction<P>,
> {
    match kind {
        LspFeatureRefreshKind::CodeLens => Some(EditorAction::RequestCodeLenses { doc }),
        LspFeatureRefreshKind::DocumentLinks => Some(EditorAction::RequestDocumentLinks { doc }),
        LspFeatureRefreshKind::FoldingRanges => Some(EditorAction::RequestFoldingRanges { doc }),
        LspFeatureRefreshKind::SemanticTokens => Some(EditorAction::RequestSemanticTokens { doc }),
        LspFeatureRefreshKind::InlineCompletion => match first_view_of(state.views@, doc) {
            Some(view) => Some(EditorAction::RequestInlineCompletion { doc, view, invoked: false }),
            None => None,
        },
    }
}

pub open spec fn refresh_actions<P>(
    state: EditorState,
    docs: Seq<LspFeatureRefreshEvent>,
) -> Seq<EditorAction<P>>
    decreases docs.len(),
{
    if docs.len() == 0 {
        seq![]
    } else {
        let rest = refresh_actions(state, docs.drop_last());
        match refresh_action(state, docs.last().doc_id, docs.last().kind) {
            Some(action) => rest.push(action),
            None => rest,
        }
    }
}

/// What the result of a shell command does.
pub open spec fn shell_actions<P>(
    state: EditorState,
    doc: u64,
    view: u64,
    version: i32,
    transaction: Option<P>,
    selection: Option<P>,
) -> Seq<EditorAction<P>> {
    if !state.shows(view, doc) || !state.is_at(doc, version) {
        seq![EditorAction::SetStatus(Note::ShellResultTooLate)]
    } else {
        match (transaction, selection) {
            (Some(transaction), _) => seq![
                EditorAction::ApplyTransaction { doc, view, transaction },
                EditorAction::AppendChangesToHistory { doc, view },
                EditorAction::EnsureCursorInView { doc, view },
            ],
            (None, Some(selection)) => seq![
                EditorAction::Select { doc, view, selection },
                EditorAction::EnsureCursorInView { doc, view },
            ],
            (None, None) => seq![EditorAction::EnsureCursorInView { doc, view }],
        }
    }
}

/// What formatting does: a document that has changed meanwhile is left as it is, and saved all
/// the same. A failure is reported unless the document is saved.
pub open spec fn formatting_actions<P>(
    state: EditorState,
    doc: u64,
    view: u64,
    version: i32,
    format: Result<P, String>,
    write: Option<P>,
) -> Seq<EditorAction<P>> {
    if state.spec_document(doc) is None || !state.has_view(view) {
        seq![]
    } else {
        let formatted = match format {
            Ok(transaction) => if state.is_at(doc, version) {
                seq![
                    EditorAction::ApplyTransaction { doc, view, transaction },
                    EditorAction::AppendChangesToHistory { doc, view },
                    EditorAction::DetectIndentAndLineEnding { doc },
                    EditorAction::EnsureCursorInView { doc, view },
                ]
            } else {
                seq![]
            },
            Err(message) => if write is None {
                seq![EditorAction::SetError(Note::Text(message))]
            } else {
                seq![]
            },
        };
        match write {
            Some(write) => formatted.push(EditorAction::Save { doc, write }),
            None => formatted,
        }
    }
}

/// What formatting while typing does: nothing, once the document has changed or the view is gone.
pub open spec fn on_type_actions<P>(
    state: EditorState,
    doc: u64,
    view: u64,
    version: i32,
    edits: P,
) -> Seq<EditorAction<P>> {
    if state.has_view(view) && state.is_at(doc, version) {
        seq![
            EditorAction::ApplyEdits { doc, view, edits },
            EditorAction::AppendChangesToHistory { doc, view },
            EditorAction::EnsureCursorInView { doc, view },
        ]
    } else {
        seq![]
    }
}

pub open spec fn blame_actions<P>(state: EditorState, doc: u64, path: P, line: Option<u32>) -> Seq<
    EditorAction<P>,
> {
    if state.spec_document(doc) is None {
        seq![]
    } else if state.blame_auto_fetch {
        seq![EditorAction::FetchBlame { doc, path }]
    } else {
        match line {
            Some(line) => seq![
                EditorAction::FetchBlame { doc, path },
                EditorAction::ShowBlame { doc, line },
            ],
            None => seq![
                EditorAction::FetchBlame { doc, path },
                EditorAction::SetStatus(Note::BlameAvailable),
            ],
        }
    }
}

/// What the progress of an installation does.
pub open spec fn pkg_action<P>(event: OpEvent) -> EditorAction<P> {
    match event {
        OpEvent::Started { .. } | OpEvent::Done { .. } => EditorAction::Notify {
            note: Note::Pkg(event),
            severity: Severity::Info,
        },
        OpEvent::Progress { .. } => EditorAction::SetStatus(Note::Pkg(event)),
        OpEvent::Failed { .. } => EditorAction::Notify {
            note: Note::Pkg(event),
            severity: Severity::Error,
        },
    }
}

/// What changed runtime files do: agents are looked for anew if one was among them, and the
/// languages are read anew if a grammar was.
pub open spec fn assets_actions<P>(change: AssetsChange<P>) -> Seq<EditorAction<P>> {
    let reconcile = seq![EditorAction::ReconcileAssets(change.change)];
    let agents = if change.has_package_kind("acp"@) {
        reconcile.push(EditorAction::RefreshAgents)
    } else {
        reconcile
    };
    if change.grammars@.len() > 0 {
        agents.push(
            EditorAction::RebuildLanguageLoader {
                generation: change.generation,
                changed_grammars: change.grammars,
            },
        )
    } else {
        agents
    }
}

pub open spec fn warnings_actions<P>(warnings: Seq<String>) -> Seq<EditorAction<P>> {
    warnings.map_values(
        |warning: String|
            EditorAction::Notify { note: Note::Text(warning), severity: Severity::Warning },
    )
}

pub open spec fn refresh_servers<P>(ids: Seq<u64>) -> Seq<EditorAction<P>> {
    per_document(ids, |doc: u64| EditorAction::RefreshLanguageServers { doc })
}

/// What work that has come back does.
pub open spec fn task_actions<P>(state: EditorState, task: RuntimeTaskEvent<P>) -> Seq<
    EditorAction<P>,
> {
    match task {
        RuntimeTaskEvent::Stub => seq![],
        RuntimeTaskEvent::ApplySyntax { document, version, syntax } => match state.spec_document(
            document,
        ) {
            Some(doc) if doc.version == version && doc.syntax_stale => seq![
                EditorAction::InstallSyntax { doc: document, syntax },
                EditorAction::Redraw,
            ],
            _ => seq![],
        },
        RuntimeTaskEvent::FileOperation(step) => seq![EditorAction::FileOperation(step)],
        RuntimeTaskEvent::ApplyTransactionIfCurrent {
            doc_id,
            view_id,
            expected_version,
            transaction,
        } => if state.is_at(doc_id, expected_version) {
            seq![EditorAction::ApplyTransaction { doc: doc_id, view: view_id, transaction }]
        } else {
            seq![]
        },
        RuntimeTaskEvent::ApplyShellResult {
            doc_id,
            view_id,
            expected_version,
            transaction,
            selection,
        } => shell_actions(state, doc_id, view_id, expected_version, transaction, selection),
        RuntimeTaskEvent::ApplyCompletionAdditionalEdits {
            doc_id,
            view_id,
            expected_version,
            edits,
        } => match edits {
            Some(edits) if state.shows(view_id, doc_id) && state.is_at(doc_id, expected_version) => seq![
                EditorAction::ApplyEdits { doc: doc_id, view: view_id, edits },
            ],
            _ => seq![],
        },
        RuntimeTaskEvent::ApplyLspSelectionRange(answer) => seq![
            EditorAction::ApplySelectionRange(answer),
        ],
        RuntimeTaskEvent::DismissNotification { id } => seq![
            EditorAction::DismissNotification { id },
        ],
        RuntimeTaskEvent::ApplyFormattingResult {
            doc_id,
            view_id,
            expected_version,
            format_result,
            write,
        } => formatting_actions(state, doc_id, view_id, expected_version, format_result, write),
        RuntimeTaskEvent::SetEditorError { message } => seq![
            EditorAction::SetError(Note::Text(message)),
        ],
        RuntimeTaskEvent::LanguageServer(step) => seq![EditorAction::LanguageServer(step)],
        RuntimeTaskEvent::ApplyOnTypeFormatting {
            doc_id,
            view_id,
            expected_version,
            edits,
        } => on_type_actions(state, doc_id, view_id, expected_version, edits),
        RuntimeTaskEvent::RequestDocumentColorsDebounced { doc_ids } => per_document(
            doc_ids@,
            |doc: u64| EditorAction::RequestDocumentColors { doc },
        ),
        RuntimeTaskEvent::RequestLspFeaturesDebounced { docs } => refresh_actions(state, docs@),
        RuntimeTaskEvent::QueuePullDiagnosticsForDocuments { document_ids } => seq![
            EditorAction::QueueDiagnostics { documents: document_ids },
        ],
        RuntimeTaskEvent::QueuePullDiagnosticsInterFileSweep { language_servers } => seq![
            EditorAction::QueueDiagnosticsSweep { language_servers },
        ],
        RuntimeTaskEvent::BlameFetchDebounced { doc_id, path, line } => blame_actions(
            state,
            doc_id,
            path,
            line,
        ),
        RuntimeTaskEvent::Debugger(step) => seq![EditorAction::Debugger(step)],
        RuntimeTaskEvent::PkgEvent(event) => seq![pkg_action(event)],
        RuntimeTaskEvent::RuntimeAssetsChanged(change) => assets_actions(change),
        RuntimeTaskEvent::ApplyRuntimeLanguageLoader { generation, changed_grammars, loader } => {
            if generation == state.assets_generation {
                seq![EditorAction::InstallLanguageLoader { generation, changed_grammars, loader }]
            } else {
                seq![]
            }
        },
        RuntimeTaskEvent::ApplyAssistantAgents { config_generation, agents } => if config_generation
            == state.config_generation {
            seq![EditorAction::SetAgents { agents }]
        } else {
            seq![]
        },
        RuntimeTaskEvent::PkgOperationFinished { warnings, success, documents } => if success {
            warnings_actions(warnings@) + refresh_servers(documents@)
        } else {
            warnings_actions(warnings@)
        },
        RuntimeTaskEvent::RefreshLanguageServers { document_ids } => refresh_servers(document_ids@),
        RuntimeTaskEvent::Assistant(task) => match news_of(task) {
            Some(news) => seq![EditorAction::Assistant(task), EditorAction::TellPlugins(news)],
            None => seq![EditorAction::Assistant(task)],
        },
        RuntimeTaskEvent::PluginHostRequest(request) => seq![
            EditorAction::PluginHostRequest(request),
        ],
        RuntimeTaskEvent::AutoSaveRun => if state.inserting {
            seq![EditorAction::DeferAutoSave(true)]
        } else {
            seq![EditorAction::AutoSave(auto_save_options()), EditorAction::DeferAutoSave(false)]
        },
    }
}

fn one<P>(action: EditorAction<P>) -> (r: Vec<EditorAction<P>>)
    ensures
        r@ == seq![action],
{
    let mut actions: Vec<EditorAction<P>> = Vec::new();
    actions.push(action);
    assert(actions@ =~= seq![action]);
    actions
}

/// What the result of a shell command does to the document it was started from.
pub fn apply_shell_result<P>(
    state: &EditorState,
    doc: u64,
    view: u64,
    expected_version: i32,
    transaction: Option<P>,
    selection: Option<P>,
) -> (r: Vec<EditorAction<P>>)
    ensures
        r@ == shell_actions(*state, doc, view, expected_version, transaction, selection),
{
    if !state.view_shows(view, doc) || !state.document_is_at(doc, expected_version) {
        return one(EditorAction::SetStatus(Note::ShellResultTooLate));
    }
    let mut actions: Vec<EditorAction<P>> = Vec::new();
    match transaction {
        Some(transaction) => {
            actions.push(EditorAction::ApplyTransaction { doc, view, transaction });
            actions.push(EditorAction::AppendChangesToHistory { doc, view });
        },
        None => {
            if let Some(selection) = selection {
                actions.push(EditorAction::Select { doc, view, selection });
            }
        },
    }
    actions.push(EditorAction::EnsureCursorInView { doc, view });
    assert(actions@ =~= shell_actions(*state, doc, view, expected_version, transaction, selection));
    actions
}

/// What formatting while typing does to the document.
pub fn apply_on_type_formatting<P>(
    state: &EditorState,
    doc: u64,
    view: u64,
    expected_version: i32,
    edits: P,
) -> (r: Vec<EditorAction<P>>)
    ensures
        r@ == on_type_actions(*state, doc, view, expected_version, edits),
{
    let mut actions: Vec<EditorAction<P>> = Vec::new();
    if state.contains_view(view) && state.document_is_at(doc, expected_version) {
        actions.push(EditorAction::ApplyEdits { doc, view, edits });
        actions.push(EditorAction::AppendChangesToHistory { doc, view });
        actions.push(EditorAction::EnsureCursorInView { doc, view });
    }
    assert(actions@ =~= on_type_actions(*state, doc, view, expected_version, edits));
    actions
}

/// What formatting a document does.
pub fn apply_formatting_result<P>(
    state: &EditorState,
    doc: u64,
    view: u64,
    doc_version: i32,
    format: Result<P, String>,
    write: Option<P>,
) -> (r: Vec<EditorAction<P>>)
    ensures
        r@ == formatting_actions(*state, doc, view, doc_version, format, write),
{
    let mut actions: Vec<EditorAction<P>> = Vec::new();
    if state.document(doc).is_none() || !state.contains_view(view) {
        assert(actions@ =~= seq![]);
        return actions;
    }
    match format {
        Ok(transaction) => {
            if state.document_is_at(doc, doc_version) {
                actions.push(EditorAction::ApplyTransaction { doc, view, transaction });
                actions.push(EditorAction::AppendChangesToHistory { doc, view });
                actions.push(EditorAction::DetectIndentAndLineEnding { doc });
                actions.push(EditorAction::EnsureCursorInView { doc, view });
            }
        },
        Err(message) => {
            if write.is_none() {
                actions.push(EditorAction::SetError(Note::Text(message)));
            }
        },
    }
    if let Some(write) = write {
        actions.push(EditorAction::Save { doc, write });
    }
    assert(actions@ =~= formatting_actions(*state, doc, view, doc_version, format, write));
    actions
}

/// What looking up the authors of a document's lines does.
pub fn apply_blame_fetch_debounced<P>(state: &EditorState, doc: u64, path: P, line: Option<u32>) -> (r:
    Vec<EditorAction<P>>)
    ensures
        r@ == blame_actions(*state, doc, path, line),
{
    let mut actions: Vec<EditorAction<P>> = Vec::new();
    if state.document(doc).is_some() {
        actions.push(EditorAction::FetchBlame { doc, path });
        if !state.blame_auto_fetch {
            match line {
                Some(line) => {
                    actions.push(EditorAction::ShowBlame { doc, line });
                },
                None => {
                    actions.push(EditorAction::SetStatus(Note::BlameAvailable));
                },
            }
        }
    }
    assert(actions@ =~= blame_actions(*state, doc, path, line));
    actions
}

/// What the progress of an installation does.
pub fn apply_event<P>(event: OpEvent) -> (r: EditorAction<P>)
    ensures
        r == pkg_action::<P>(event),
{
    match event {
        OpEvent::Started { name } => EditorAction::Notify {
            note: Note::Pkg(OpEvent::Started { name }),
            severity: Severity::Info,
        },
        OpEvent::Progress { name, message } => EditorAction::SetStatus(
            Note::Pkg(OpEvent::Progress { name, message }),
        ),
        OpEvent::Done { name } => EditorAction::Notify {
            note: Note::Pkg(OpEvent::Done { name }),
            severity: Severity::Info,
        },
        OpEvent::Failed { name, message } => EditorAction::Notify {
            note: Note::Pkg(OpEvent::Failed { name, message }),
            severity: Severity::Error,
        },
    }
}

fn request_features<P>(state: &EditorState, docs: &Vec<LspFeatureRefreshEvent>) -> (r: Vec<
    EditorAction<P>,
>)
    ensures
        r@ == refresh_actions::<P>(*state, docs@),
{
    let mut actions: Vec<EditorAction<P>> = Vec::new();
    let mut i: usize = 0;
    assert(docs@.take(0) =~= seq![]);
    while i < docs.len()
        invariant
            i <= docs@.len(),
            actions@ == refresh_actions::<P>(*state, docs@.take(i as int)),
        decreases docs@.len() - i,
    {
        assert(docs@.take(i + 1).drop_last() =~= docs@.take(i as int));
        let doc: u64 = docs[i].doc_id;
        match docs[i].kind {
            LspFeatureRefreshKind::CodeLens => {
                actions.push(EditorAction::RequestCodeLenses { doc });
            },
            LspFeatureRefreshKind::DocumentLinks => {
                actions.push(EditorAction::RequestDocumentLinks { doc });
            },
            LspFeatureRefreshKind::FoldingRanges => {
                actions.push(EditorAction::RequestFoldingRanges { doc });
            },
            LspFeatureRefreshKind::SemanticTokens => {
                actions.push(EditorAction::RequestSemanticTokens { doc });
            },
            LspFeatureRefreshKind::InlineCompletion => {
                if let Some(view) = state.view_of(doc) {
                    actions.push(EditorAction::RequestInlineCompletion { doc, view, invoked: false });
                }
            },
        }
        i += 1;
    }
    assert(docs@.take(i as int) =~= docs@);
    actions
}

fn request_colors<P>(ids: &Vec<u64>) -> (r: Vec<EditorAction<P>>)
    ensures
        r@ == per_document(ids@, |doc: u64| EditorAction::<P>::RequestDocumentColors { doc }),
{
    let mut actions: Vec<EditorAction<P>> = Vec::new();
    let mut i: usize = 0;
    while i < ids.len()
        invariant
            i <= ids@.len(),
            actions@.len() == i,
            forall|j: int|
                0 <= j < i ==> #[trigger] actions@[j] == (EditorAction::<P>::RequestDocumentColors {
                    doc: ids@[j],
                }),
        decreases ids@.len() - i,
    {
        actions.push(EditorAction::RequestDocumentColors { doc: ids[i] });
        i += 1;
    }
    assert(actions@ =~= per_document(
        ids@,
        |doc: u64| EditorAction::<P>::RequestDocumentColors { doc },
    ));
    actions
}

fn push_refreshes<P>(actions: &mut Vec<EditorAction<P>>, ids: &Vec<u64>)
    ensures
        final(actions)@ == old(actions)@ + refresh_servers::<P>(ids@),
{
    let ghost before = actions@;
    let mut i: usize = 0;
    while i < ids.len()
        invariant
            i <= ids@.len(),
            before == old(actions)@,
            actions@.len() == before.len() + i,
            forall|j: int| 0 <= j < before.len() ==> #[trigger] actions@[j] == before[j],
            forall|j: int|
                before.len() <= j < before.len() + i ==> #[trigger] actions@[j] == (EditorAction::<
                    P,
                >::RefreshLanguageServers { doc: ids@[j - before.len()] }),
        decreases ids@.len() - i,
    {
        actions.push(EditorAction::RefreshLanguageServers { doc: ids[i] });
        i += 1;
    }
    assert(actions@ =~= before + refresh_servers::<P>(ids@));
}

fn notify_warnings<P>(warnings: Vec<String>) -> (r: Vec<EditorAction<P>>)
    ensures
        r@ == warnings_actions::<P>(warnings@),
{
    let mut actions: Vec<EditorAction<P>> = Vec::new();
    let ghost all = warnings@;
    for warning in it: warnings
        invariant
            it.seq() == all,
            actions@.len() == it.index(),
            forall|j: int|
                0 <= j < it.index() ==> #[trigger] actions@[j] == (EditorAction::<P>::Notify {
                    note: Note::Text(all[j]),
                    severity: Severity::Warning,
                }),
    {
        actions.push(
            EditorAction::Notify { note: Note::Text(warning), severity: Severity::Warning },
        );
    }
    assert(actions@ =~= warnings_actions::<P>(all));
    actions
}

fn change_assets<P>(change: AssetsChange<P>) -> (r: Vec<EditorAction<P>>)
    ensures
        r@ == assets_actions(change),
{
    let agents = change.concerns_agents();
    let generation = change.generation;
    let mut actions = one(EditorAction::ReconcileAssets(change.change));
    if agents {
        actions.push(EditorAction::RefreshAgents);
    }
    if change.grammars.len() > 0 {
        actions.push(
            EditorAction::RebuildLanguageLoader { generation, changed_grammars: change.grammars },
        );
    }
    actions
}

/// What comes of reading the languages anew: they are taken over, or it is said why not.
pub fn rebuilt_language_loader<P>(
    generation: u64,
    changed_grammars: Vec<String>,
    loaded: Result<Result<P, String>, String>,
) -> (r: RuntimeTaskEvent<P>)
    ensures
        match loaded {
            Ok(Ok(loader)) => r == (RuntimeTaskEvent::ApplyRuntimeLanguageLoader {
                generation,
                changed_grammars,
                loader,
            }),
            Ok(Err(error)) => r matches RuntimeTaskEvent::SetEditorError { message } && message@
                == "failed to rebuild language loader for runtime generation "@ + text::decimal(
                generation as nat,
            ) + ": "@ + error@,
            Err(error) => r matches RuntimeTaskEvent::SetEditorError { message } && message@
                == "language loader task failed for runtime generation "@ + text::decimal(
                generation as nat,
            ) + ": "@ + error@,
        },
{
    let (failure, error): (&str, String) = match loaded {
        Ok(Ok(loader)) => {
            return RuntimeTaskEvent::ApplyRuntimeLanguageLoader {
                generation,
                changed_grammars,
                loader,
            };
        },
        Ok(Err(error)) => (
            "failed to rebuild language loader for runtime generation ",
            error,
        ),
        Err(error) => ("language loader task failed for runtime generation ", error),
    };
    let mut message = join(failure, decimal_text(generation).as_str());
    message.append(": ");
    message.append(error.as_str());
    RuntimeTaskEvent::SetEditorError { message }
}

/// What work that has come back does.
pub fn apply_runtime_task_event<P>(state: &EditorState, task: RuntimeTaskEvent<P>) -> (r: Vec<
    EditorAction<P>,
>)
    ensures
        r@ == task_actions(*state, task),
{
    match task {
        RuntimeTaskEvent::Stub => Vec::new(),
        RuntimeTaskEvent::ApplySyntax { document, version, syntax } => {
            let mut actions: Vec<EditorAction<P>> = Vec::new();
            if let Some(doc) = state.document(document) {
                if doc.version == version && doc.syntax_stale {
                    actions.push(EditorAction::InstallSyntax { doc: document, syntax });
                    actions.push(EditorAction::Redraw);
                }
            }
            assert(actions@ =~= task_actions(*state, task));
            actions
        },
        RuntimeTaskEvent::FileOperation(step) => one(EditorAction::FileOperation(step)),
        RuntimeTaskEvent::ApplyTransactionIfCurrent {
            doc_id,
            view_id,
            expected_version,
            transaction,
        } => {
            if state.document_is_at(doc_id, expected_version) {
                one(EditorAction::ApplyTransaction { doc: doc_id, view: view_id, transaction })
            } else {
                Vec::new()
            }
        },
        RuntimeTaskEvent::ApplyShellResult {
            doc_id,
            view_id,
            expected_version,
            transaction,
            selection,
        } => apply_shell_result(state, doc_id, view_id, expected_version, transaction, selection),
        RuntimeTaskEvent::ApplyCompletionAdditionalEdits {
            doc_id,
            view_id,
            expected_version,
            edits,
        } => {
            if !state.view_shows(view_id, doc_id) || !state.document_is_at(
                doc_id,
                expected_version,
            ) {
                return Vec::new();
            }
            match edits {
                Some(edits) => one(EditorAction::ApplyEdits { doc: doc_id, view: view_id, edits }),
                None => Vec::new(),
            }
        },
        RuntimeTaskEvent::ApplyLspSelectionRange(answer) => one(
            EditorAction::ApplySelectionRange(answer),
        ),
        RuntimeTaskEvent::DismissNotification { id } => one(
            EditorAction::DismissNotification { id },
        ),
        RuntimeTaskEvent::ApplyFormattingResult {
            doc_id,
            view_id,
            expected_version,
            format_result,
            write,
        } => apply_formatting_result(
            state,
            doc_id,
            view_id,
            expected_version,
            format_result,
            write,
        ),
        RuntimeTaskEvent::SetEditorError { message } => one(
            EditorAction::SetError(Note::Text(message)),
        ),
        RuntimeTaskEvent::LanguageServer(step) => one(EditorAction::LanguageServer(step)),
        RuntimeTaskEvent::ApplyOnTypeFormatting {
            doc_id,
            view_id,
            expected_version,
            edits,
        } => apply_on_type_formatting(state, doc_id, view_id, expected_version, edits),
        RuntimeTaskEvent::RequestDocumentColorsDebounced { doc_ids } => request_colors(&doc_ids),
        RuntimeTaskEvent::RequestLspFeaturesDebounced { docs } => request_features(state, &docs),
        RuntimeTaskEvent::QueuePullDiagnosticsForDocuments { document_ids } => one(
            EditorAction::QueueDiagnostics { documents: document_ids },
        ),
        RuntimeTaskEvent::QueuePullDiagnosticsInterFileSweep { language_servers } => one(
            EditorAction::QueueDiagnosticsSweep { language_servers },
        ),
        RuntimeTaskEvent::BlameFetchDebounced { doc_id, path, line } => apply_blame_fetch_debounced(
            state,
            doc_id,
            path,
            line,
        ),
        RuntimeTaskEvent::Debugger(step) => one(EditorAction::Debugger(step)),
        RuntimeTaskEvent::PkgEvent(event) => one(apply_event(event)),
        RuntimeTaskEvent::RuntimeAssetsChanged(change) => change_assets(change),
        RuntimeTaskEvent::ApplyRuntimeLanguageLoader { generation, changed_grammars, loader } => {
            if generation == state.assets_generation {
                one(EditorAction::InstallLanguageLoader { generation, changed_grammars, loader })
            } else {
                Vec::new()
            }
        },
        RuntimeTaskEvent::ApplyAssistantAgents { config_generation, agents } => {
            if config_generation == state.config_generation {
                one(EditorAction::SetAgents { agents })
            } else {
                Vec::new()
            }
        },
        RuntimeTaskEvent::PkgOperationFinished { warnings, success, documents } => {
            let mut actions = notify_warnings(warnings);
            if success {
                push_refreshes(&mut actions, &documents);
            }
            actions
        },
        RuntimeTaskEvent::RefreshLanguageServers { document_ids } => {
            let mut actions: Vec<EditorAction<P>> = Vec::new();
            push_refreshes(&mut actions, &document_ids);
            assert(actions@ =~= refresh_servers::<P>(document_ids@));
            actions
        },
        RuntimeTaskEvent::Assistant(task) => {
            let news = assistant_news(&task);
            let mut actions = one(EditorAction::Assistant(task));
            if let Some(news) = news {
                actions.push(EditorAction::TellPlugins(news));
            }
            actions
        },
        RuntimeTaskEvent::PluginHostRequest(request) => one(
            EditorAction::PluginHostRequest(request),
        ),
        RuntimeTaskEvent::AutoSaveRun => apply_auto_save_debounce(state),
    }
}

/// Saves what has changed, or leaves that for when typing is over.
pub fn apply_auto_save_debounce<P>(state: &EditorState) -> (r: Vec<EditorAction<P>>)
    ensures
        r@ == task_actions(*state, RuntimeTaskEvent::<P>::AutoSaveRun),
{
    if state.inserting {
        one(EditorAction::DeferAutoSave(true))
    } else {
        let mut actions: Vec<EditorAction<P>> = Vec::new();
        let options = WriteAllOptions { safe: true, write_scratch: false, auto_format: false };
        actions.push(EditorAction::AutoSave(options));
        actions.push(EditorAction::DeferAutoSave(false));
        assert(actions@ =~= task_actions(*state, RuntimeTaskEvent::<P>::AutoSaveRun));
        actions
    }
}

/// What follows when a document was to be saved: a failure is told.
pub fn document_saved<P>(result: Result<(), String>) -> (r: Option<EditorAction<P>>)
    ensures
        r == match result {
            Ok(_) => None,
            Err(error) => Some(EditorAction::<P>::SetError(Note::SaveFailed(error))),
        },
{
    match result {
        Ok(_) => None,
        Err(error) => Some(EditorAction::SetError(Note::SaveFailed(error))),
    }
}

/// What follows when all documents were to be saved of themselves: a failure is told as it is.
pub fn auto_saved<P>(result: Result<(), String>) -> (r: Option<EditorAction<P>>)
    ensures
        r == match result {
            Ok(_) => None,
            Err(error) => Some(EditorAction::<P>::SetError(Note::Text(error))),
        },
{
    match result {
        Ok(_) => None,
        Err(error) => Some(EditorAction::SetError(Note::Text(error))),
    }
}

/// What follows when the languages that were read anew are in place: the syntax of each document
/// that they concern is worked out anew.
pub fn language_loader_installed<P>(documents: &Vec<u64>, generation: u64) -> (r: Vec<
    EditorAction<P>,
>)
    ensures
        r@ == per_document::<P>(
            documents@,
            |doc: u64| EditorAction::QueueSyntax { doc, generation },
        ),
{
    let mut actions: Vec<EditorAction<P>> = Vec::new();
    let mut i: usize = 0;
    while i < documents.len()
        invariant
            i <= documents@.len(),
            actions@ =~= per_document::<P>(
                documents@.take(i as int),
                |doc: u64| EditorAction::QueueSyntax { doc, generation },
            ),
        decreases documents@.len() - i,
    {
        actions.push(EditorAction::QueueSyntax { doc: documents[i], generation });
        i += 1;
    }
    assert(documents@.take(i as int) =~= documents@);
    actions
}

/// Nothing is done to the text of a document that has changed since the work on it began, nor
/// to its selection.
pub proof fn law_late_work_leaves_changed_documents_alone<P>(
    state: EditorState,
    doc: u64,
    view: u64,
    version: i32,
    payload: P,
    format: Result<P, String>,
    write: Option<P>,
    transaction: Option<P>,
    selection: Option<P>,
)
    requires
        !state.is_at(doc, version),
    ensures
        forall|i: int|
            0 <= i < shell_actions(state, doc, view, version, transaction, selection).len() ==> !(
            touches_text(
                #[trigger] shell_actions(state, doc, view, version, transaction, selection)[i],
            )),
        forall|i: int|
            0 <= i < formatting_actions(state, doc, view, version, format, write).len() ==> !(
            touches_text(#[trigger] formatting_actions(state, doc, view, version, format, write)[i])),
        task_actions(
            state,
            RuntimeTaskEvent::ApplyTransactionIfCurrent {
                doc_id: doc,
                view_id: view,
                expected_version: version,
                transaction: payload,
            },
        ).len() == 0,
        task_actions(
            state,
            RuntimeTaskEvent::ApplySyntax { document: doc, version, syntax: payload },
        ).len() == 0,
        task_actions(
            state,
            RuntimeTaskEvent::ApplyCompletionAdditionalEdits {
                doc_id: doc,
                view_id: view,
                expected_version: version,
                edits: Some(payload),
            },
        ).len() == 0,
        on_type_actions(state, doc, view, version, payload).len() == 0,
{
}

/// The action changes the text of a document or what is selected in it.
pub open spec fn touches_text<P>(action: EditorAction<P>) -> bool {
    action is ApplyTransaction || action is ApplyEdits || action is Select
}

/// The documents that may be read from disk again: those that are there and not modified.
pub open spec fn reloadable(state: EditorState, ids: Seq<u64>) -> Seq<u64> {
    ids.filter(|id: u64| state.spec_document(id) matches Some(doc) && !doc.modified)
}

pub fn auto_reload_candidates(state: &EditorState, ids: &Vec<u64>) -> (r: Vec<u64>)
    ensures
        r@ == reloadable(*state, ids@),
{
    let mut out: Vec<u64> = Vec::new();
    let mut i: usize = 0;
    proof {
        reveal(Seq::filter);
    }
    while i < ids.len()
        invariant
            i <= ids@.len(),
            out@ == reloadable(*state, ids@.take(i as int)),
        decreases ids@.len() - i,
    {
        proof {
            reveal(Seq::filter);
            assert(ids@.take(i + 1).drop_last() =~= ids@.take(i as int));
        }
        if let Some(doc) = state.document(ids[i]) {
            if !doc.modified {
                out.push(ids[i]);
            }
        }
        i += 1;
    }
    assert(ids@.take(i as int) =~= ids@);
    out
}

/// Documents that have changed on disk are read again, together with those that were left for
/// later. While text is being typed in they are left for later too.
pub fn apply_auto_reload(state: &EditorState, documents: Vec<u64>, pending: &mut Vec<u64>) -> (r: Vec<
    u64,
>)
    requires
        collections::ascending(documents@),
        collections::ascending(old(pending)@),
    ensures
        collections::ascending(final(pending)@),
        if state.inserting {
            &&& r@.len() == 0
            &&& forall|id: u64| #[trigger]
                final(pending)@.contains(id) <==> old(pending)@.contains(id)
                    || documents@.contains(id)
        } else {
            &&& final(pending)@.len() == 0
            &&& exists|all: Seq<u64>|
                collections::ascending(all) && (forall|id: u64| #[trigger]
                    all.contains(id) <==> documents@.contains(id) || old(pending)@.contains(id))
                    && r@ == #[trigger] reloadable(*state, all)
        },
{
    if state.inserting {
        insert_all_ascending(pending, &documents);
        return Vec::new();
    }
    let mut all = documents;
    insert_all_ascending(&mut all, pending);
    pending.clear();
    let candidates = auto_reload_candidates(state, &all);
    assert(candidates@ == reloadable(*state, all@));
    candidates
}

/// A document with changes of its own is never read from disk without being asked for.
pub proof fn law_modified_documents_are_not_reloaded(state: EditorState, ids: Seq<u64>, id: u64)
    requires
        state.spec_document(id) matches Some(doc) && doc.modified,
    ensures
        !reloadable(state, ids).contains(id),
{
    let kept = |id: u64| state.spec_document(id) matches Some(doc) && !doc.modified;
    if reloadable(state, ids).contains(id) {
        let i = reloadable(state, ids).index_of(id);
        ids.lemma_filter_pred(kept, i);
    }
}

/// What a task that the editor waited for before it went away leaves to do.
#[derive(Debug)]
pub enum ExitTask<P> {
    Finished(RuntimeTaskEvent<P>),
    Failed(String),
    Canceled,
    Panicked,
}

/// The work is applied; that it was called off is no failure.
pub fn apply_exit_task_result<P>(state: &EditorState, result: ExitTask<P>) -> (r: Result<
    Vec<EditorAction<P>>,
    String,
>)
    ensures
        match result {
            ExitTask::Finished(task) => r matches Ok(actions) && actions@ == task_actions(
                *state,
                task,
            ),
            ExitTask::Failed(message) => r == Err::<Vec<EditorAction<P>>, String>(message),
            ExitTask::Canceled => r matches Ok(actions) && actions@.len() == 0,
            ExitTask::Panicked => r matches Err(message) && message@ == "wait task panicked"@,
        },
{
    match result {
        ExitTask::Finished(task) => Ok(apply_runtime_task_event(state, task)),
        ExitTask::Failed(message) => Err(message),
        ExitTask::Canceled => Ok(Vec::new()),
        ExitTask::Panicked => Err("wait task panicked".to_owned()),
    }
}

/// A document is found by its id: the first that has it.
pub proof fn law_documents_are_found_by_id(documents: Seq<DocumentState>, id: u64)
    ensures
        match document_with(documents, id) {
            Some(document) => exists|i: int|
                {
                    &&& 0 <= i < documents.len()
                    &&& #[trigger] documents[i] == document
                    &&& document.id == id
                    &&& forall|j: int| 0 <= j < i ==> (#[trigger] documents[j]).id != id
                },
            None => forall|i: int| 0 <= i < documents.len() ==> (#[trigger] documents[i]).id != id,
        },
    decreases documents.len(),
{
    if documents.len() > 0 {
        if documents[0].id == id {
            assert(documents[0] == document_with(documents, id)->0);
        } else {
            let rest = documents.drop_first();
            law_documents_are_found_by_id(rest, id);
            assert forall|i: int| 0 < i < documents.len() implies #[trigger] documents[i] == rest[i
                - 1] by {}
            match document_with(rest, id) {
                Some(document) => {
                    let i = choose|i: int|
                        {
                            &&& 0 <= i < rest.len()
                            &&& #[trigger] rest[i] == document
                            &&& document.id == id
                            &&& forall|j: int| 0 <= j < i ==> (#[trigger] rest[j]).id != id
                        };
                    assert(documents[i + 1] == document);
                    assert forall|j: int| 0 <= j < i + 1 implies (#[trigger] documents[j]).id
                        != id by {
                        if j > 0 {
                            assert(rest[j - 1] == documents[j]);
                        }
                    }
                },
                None => {
                    assert forall|i: int| 0 <= i < documents.len() implies (#[trigger] documents[i]).id
                        != id by {
                        if i > 0 {
                            assert(rest[i - 1] == documents[i]);
                        }
                    }
                },
            }
        }
    }
}

/// The view of a document is the first that shows it.
pub proof fn law_the_first_view_of_a_document_is_found(views: Seq<ViewState>, doc: u64)
    ensures
        match first_view_of(views, doc) {
            Some(view) => exists|i: int|
                {
                    &&& 0 <= i < views.len()
                    &&& (#[trigger] views[i]).id == view
                    &&& views[i].doc == doc
                    &&& forall|j: int| 0 <= j < i ==> (#[trigger] views[j]).doc != doc
                },
            None => forall|i: int| 0 <= i < views.len() ==> (#[trigger] views[i]).doc != doc,
        },
    decreases views.len(),
{
    if views.len() > 0 {
        if views[0].doc == doc {
            assert(views[0].id == first_view_of(views, doc)->0);
        } else {
            let rest = views.drop_first();
            law_the_first_view_of_a_document_is_found(rest, doc);
            match first_view_of(rest, doc) {
                Some(view) => {
                    let i = choose|i: int|
                        {
                            &&& 0 <= i < rest.len()
                            &&& (#[trigger] rest[i]).id == view
                            &&& rest[i].doc == doc
                            &&& forall|j: int| 0 <= j < i ==> (#[trigger] rest[j]).doc != doc
                        };
                    assert(views[i + 1] == rest[i]);
                    assert forall|j: int| 0 <= j < i + 1 implies (#[trigger] views[j]).doc
                        != doc by {
                        if j > 0 {
                            assert(rest[j - 1] == views[j]);
                        }
                    }
                },
                None => {
                    assert forall|i: int| 0 <= i < views.len() implies (#[trigger] views[i]).doc
                        != doc by {
                        if i > 0 {
                            assert(rest[i - 1] == views[i]);
                        }
                    }
                },
            }
        }
    }
}

/// Work that comes in time is applied, to the document and view it was meant for: the text changes
/// first, then that is noted for undoing, and the cursor is brought into view last.
pub proof fn law_work_in_time_is_applied<P>(
    state: EditorState,
    doc: u64,
    view: u64,
    version: i32,
    change: P,
    selection: Option<P>,
    write: P,
)
    requires
        state.is_at(doc, version),
        state.shows(view, doc),
    ensures
        ({
            let shell = shell_actions(state, doc, view, version, Some(change), selection);
            &&& shell.len() == 3
            &&& shell[0] == (EditorAction::ApplyTransaction { doc, view, transaction: change })
            &&& shell[1] == (EditorAction::<P>::AppendChangesToHistory { doc, view })
            &&& shell[2] == (EditorAction::<P>::EnsureCursorInView { doc, view })
        }),
        ({
            let formatted = formatting_actions(state, doc, view, version, Ok(change), Some(write));
            &&& formatted[0] == (EditorAction::ApplyTransaction { doc, view, transaction: change })
            &&& formatted.contains(EditorAction::<P>::AppendChangesToHistory { doc, view })
            &&& formatted.contains(EditorAction::<P>::DetectIndentAndLineEnding { doc })
            &&& formatted.last() == (EditorAction::Save { doc, write })
        }),
        ({
            let typed = on_type_actions(state, doc, view, version, change);
            &&& typed.len() == 3
            &&& typed[0] == (EditorAction::ApplyEdits { doc, view, edits: change })
            &&& typed[1] == (EditorAction::<P>::AppendChangesToHistory { doc, view })
        }),
        task_actions(
            state,
            RuntimeTaskEvent::ApplyTransactionIfCurrent {
                doc_id: doc,
                view_id: view,
                expected_version: version,
                transaction: change,
            },
        ) == seq![EditorAction::ApplyTransaction { doc, view, transaction: change }],
        task_actions(
            state,
            RuntimeTaskEvent::ApplyCompletionAdditionalEdits {
                doc_id: doc,
                view_id: view,
                expected_version: version,
                edits: Some(change),
            },
        ) == seq![EditorAction::ApplyEdits { doc, view, edits: change }],
{
    assert(state.has_view(view));
    let formatted = formatting_actions(state, doc, view, version, Ok(change), Some(write));
    assert(formatted[1] == EditorAction::<P>::AppendChangesToHistory { doc, view });
    assert(formatted[2] == EditorAction::<P>::DetectIndentAndLineEnding { doc });
}

/// A document that was to be written is written even if it could not be formatted, or no longer
/// could; a failure to format is told only where nothing is written.
pub proof fn law_documents_are_written_unformatted<P>(
    state: EditorState,
    doc: u64,
    view: u64,
    version: i32,
    error: String,
    write: P,
)
    requires
        state.spec_document(doc) is Some,
        state.has_view(view),
    ensures
        formatting_actions(state, doc, view, version, Err(error), Some(write)) == seq![
            EditorAction::Save { doc, write },
        ],
        formatting_actions::<P>(state, doc, view, version, Err(error), None) == seq![
            EditorAction::<P>::SetError(Note::Text(error)),
        ],
{
    assert(formatting_actions(state, doc, view, version, Err(error), Some(write)) =~= seq![
        EditorAction::Save { doc, write },
    ]);
}

/// While somebody types nothing is saved by itself; that is put off. Otherwise everything is that
/// has a file, safely and as it stands.
pub proof fn law_typing_puts_saving_off<P>(state: EditorState)
    ensures
        state.inserting ==> task_actions(state, RuntimeTaskEvent::<P>::AutoSaveRun) == seq![
            EditorAction::<P>::DeferAutoSave(true),
        ],
        !state.inserting ==> task_actions(state, RuntimeTaskEvent::<P>::AutoSaveRun) == seq![
            EditorAction::<P>::AutoSave(
                WriteAllOptions { safe: true, write_scratch: false, auto_format: false },
            ),
            EditorAction::<P>::DeferAutoSave(false),
        ],
{
}

/// What was made for an earlier state of the assets or of the configuration is dropped.
pub proof fn law_outdated_loaders_are_dropped<P>(
    state: EditorState,
    generation: u64,
    changed_grammars: Vec<String>,
    made: P,
)
    ensures
        ({
            let actions = task_actions(
                state,
                RuntimeTaskEvent::ApplyRuntimeLanguageLoader {
                    generation,
                    changed_grammars,
                    loader: made,
                },
            );
            &&& generation != state.assets_generation ==> actions.len() == 0
            &&& generation == state.assets_generation ==> actions == seq![
                EditorAction::InstallLanguageLoader { generation, changed_grammars, loader: made },
            ]
        }),
        ({
            let actions = task_actions(
                state,
                RuntimeTaskEvent::ApplyAssistantAgents { config_generation: generation, agents: made },
            );
            &&& generation != state.config_generation ==> actions.len() == 0
            &&& generation == state.config_generation ==> actions == seq![
                EditorAction::SetAgents { agents: made },
            ]
        }),
{
}

/// Features are refreshed in the order in which that was asked for; suggestions only where the
/// document is shown.
pub proof fn law_features_are_refreshed_in_turn<P>(
    state: EditorState,
    docs: Seq<LspFeatureRefreshEvent>,
    doc: u64,
)
    ensures
        refresh_actions::<P>(state, Seq::<LspFeatureRefreshEvent>::empty()).len() == 0,
        refresh_actions::<P>(
            state,
            docs.push(
                LspFeatureRefreshEvent { doc_id: doc, kind: LspFeatureRefreshKind::SemanticTokens },
            ),
        ) == refresh_actions::<P>(state, docs).push(EditorAction::RequestSemanticTokens { doc }),
        refresh_actions::<P>(
            state,
            docs.push(LspFeatureRefreshEvent { doc_id: doc, kind: LspFeatureRefreshKind::CodeLens }),
        ) == refresh_actions::<P>(state, docs).push(EditorAction::RequestCodeLenses { doc }),
        refresh_actions::<P>(
            state,
            docs.push(
                LspFeatureRefreshEvent { doc_id: doc, kind: LspFeatureRefreshKind::DocumentLinks },
            ),
        ) == refresh_actions::<P>(state, docs).push(EditorAction::RequestDocumentLinks { doc }),
        refresh_actions::<P>(
            state,
            docs.push(
                LspFeatureRefreshEvent { doc_id: doc, kind: LspFeatureRefreshKind::FoldingRanges },
            ),
        ) == refresh_actions::<P>(state, docs).push(EditorAction::RequestFoldingRanges { doc }),
        (forall|i: int| 0 <= i < state.views@.len() ==> (#[trigger] state.views@[i]).doc != doc)
            ==> refresh_actions::<P>(
            state,
            docs.push(
                LspFeatureRefreshEvent {
                    doc_id: doc,
                    kind: LspFeatureRefreshKind::InlineCompletion,
                },
            ),
        ) == refresh_actions::<P>(state, docs),
{
    law_the_first_view_of_a_document_is_found(state.views@, doc);
    assert forall|event: LspFeatureRefreshEvent| #[trigger] docs.push(event).drop_last()
        == docs by {
        assert(docs.push(event).drop_last() =~= docs);
    }
    if first_view_of(state.views@, doc) is Some {
        let i = choose|i: int|
            {
                &&& 0 <= i < state.views@.len()
                &&& (#[trigger] state.views@[i]).id == first_view_of(state.views@, doc)->0
                &&& state.views@[i].doc == doc
                &&& forall|j: int| 0 <= j < i ==> (#[trigger] state.views@[j]).doc != doc
            };
        assert(state.views@[i].doc == doc);
    }
}

/// Plugins hear of the thread that was closed as it was before, and of others as they are after.
pub proof fn law_plugins_hear_of_the_right_thread(
    before: u64,
    after: u64,
    attached: bool,
    kind: ContextKind,
    ids: Seq<u64>,
    threads: Seq<ThreadInfo>,
)
    ensures
        told(AssistantNews::Closed, Some(before), Some(after), ids, threads) == seq![
            AssistantEvent::ThreadClosed { thread: before },
        ],
        told(
            AssistantNews::ContextChanged { attached, kind },
            Some(before),
            Some(after),
            ids,
            threads,
        ) == seq![AssistantEvent::ContextChanged { thread: after, attached, kind }],
        told(AssistantNews::UserPrompt, Some(before), Some(after), ids, threads).len() == 1,
        told(AssistantNews::UserPrompt, Some(before), None, ids, threads).len() == 0,
{
}

/// Blame is fetched for documents that are there; where somebody asked for it, it is shown for
/// their line, or it is said that it is there.
pub proof fn law_blame_is_shown_to_who_asked<P>(state: EditorState, doc: u64, path: P, line: u32)
    ensures
        state.spec_document(doc) is None ==> blame_actions(state, doc, path, Some(line)).len() == 0
            && blame_actions(state, doc, path, None).len() == 0,
        state.spec_document(doc) is Some ==> {
            &&& blame_actions(state, doc, path, Some(line))[0] == (EditorAction::FetchBlame {
                doc,
                path,
            })
            &&& blame_actions(state, doc, path, None)[0] == (EditorAction::FetchBlame { doc, path })
            &&& state.blame_auto_fetch ==> blame_actions(state, doc, path, Some(line)).len() == 1
            &&& !state.blame_auto_fetch ==> blame_actions(state, doc, path, Some(line))[1]
                == (EditorAction::<P>::ShowBlame { doc, line }) && blame_actions(
                state,
                doc,
                path,
                None,
            )[1] == EditorAction::<P>::SetStatus(Note::BlameAvailable)
        },
{
}

/// Failures of packages are told as such, other ends and beginnings as information, and progress
/// only in passing.
pub proof fn law_package_failures_are_told<P>(event: OpEvent)
    ensures
        event is Failed ==> (pkg_action::<P>(event) matches EditorAction::Notify { note, severity }
            && note == Note::Pkg(event) && severity == Severity::Error),
        event is Started || event is Done ==> (pkg_action::<P>(event) matches EditorAction::Notify {
            note,
            severity,
        } && note == Note::Pkg(event) && severity == Severity::Info),
        event is Progress ==> pkg_action::<P>(event) == EditorAction::<P>::SetStatus(
            Note::Pkg(event),
        ),
{
}

/// Changed assets are taken in first; agents follow if packages of theirs have changed, and the
/// languages if grammars have.
pub proof fn law_changed_assets_are_taken_in_first<P>(change: AssetsChange<P>, i: int)
    ensures
        ({
            let actions = assets_actions(change);
            &&& actions[0] == EditorAction::ReconcileAssets(change.change)
            &&& 0 <= i < change.package_kinds@.len() && change.package_kinds@[i]@ == "acp"@
                ==> actions[1] == EditorAction::<P>::RefreshAgents
            &&& change.grammars@.len() > 0 ==> actions.last()
                == (EditorAction::<P>::RebuildLanguageLoader {
                generation: change.generation,
                changed_grammars: change.grammars,
            })
            &&& change.grammars@.len() == 0 && (forall|j: int|
                0 <= j < change.package_kinds@.len() ==> (#[trigger] change.package_kinds@[j])@
                    != "acp"@) ==> actions.len() == 1
        }),
{
}

/// New threads are those that were not there before, in order.
pub proof fn law_only_new_threads_are_told(
    before: Seq<u64>,
    after: Seq<ThreadInfo>,
    thread: ThreadInfo,
)
    ensures
        before.contains(thread.id) ==> new_threads(before, after.push(thread)) == new_threads(
            before,
            after,
        ),
        !before.contains(thread.id) ==> new_threads(before, after.push(thread)) == new_threads(
            before,
            after,
        ).push(thread),
{
    let new = |thread: ThreadInfo| !before.contains(thread.id);
    assert(after.push(thread).drop_last() =~= after);
    assert(after.push(thread).last() == thread);
    reveal(Seq::filter);
}

/// Plugins hear of threads that may be new, of contexts that come and go, of prompts and of
/// threads that close, and of nothing else that the assistant does.
pub proof fn law_plugins_hear_what_concerns_them<P>(task: AssistantTask<P>)
    ensures
        task is RestoreHistoryThread || task is ConnectBackend || task
            is NewThreadFromActiveBackend <==> news_of(task) == Some(AssistantNews::NewThreads),
        task is SubmitPrompt <==> news_of(task) == Some(AssistantNews::UserPrompt),
        task is CloseActiveThread <==> news_of(task) == Some(AssistantNews::Closed),
        task matches AssistantTask::AttachContext { kind, .. } ==> news_of(task) == Some(
            AssistantNews::ContextChanged { attached: true, kind },
        ),
        task is DetachContext ==> (news_of(task) matches Some(
            AssistantNews::ContextChanged { attached, .. },
        ) && !attached),
{
}

/// What is saved of itself is saved with care: nothing without a file is written, and nothing is
/// formatted.
pub proof fn law_documents_are_saved_with_care<P>(state: EditorState, options: WriteAllOptions)
    requires
        task_actions(state, RuntimeTaskEvent::<P>::AutoSaveRun).contains(
            EditorAction::<P>::AutoSave(options),
        ),
    ensures
        !state.inserting,
        options.safe,
        !options.write_scratch,
        !options.auto_format,
{
}

/// A view shows the document that it is said to show, and no view that is not there shows any.
pub proof fn law_views_show_their_document(state: EditorState, view: u64, doc: u64, i: int)
    ensures
        0 <= i < state.views@.len() ==> state.shows(state.views@[i].id, state.views@[i].doc),
        (forall|j: int| 0 <= j < state.views@.len() ==> (#[trigger] state.views@[j]).id != view)
            ==> !state.shows(view, doc),
        (forall|j: int| 0 <= j < state.views@.len() ==> (#[trigger] state.views@[j]).doc != doc)
            ==> !state.shows(view, doc),
{
    if 0 <= i < state.views@.len() {
        let shown = state.views@[i];
        assert(state.views@[i].id == shown.id && state.views@[i].doc == shown.doc);
    }
}

} // verus!
