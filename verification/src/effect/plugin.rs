//! What plugins ask of the editor, and how they are answered.

use vstd::prelude::*;

verus! {

/// What a plugin can ask for that is answered at once.
#[derive(Debug, Clone, Copy, PartialEq, Eq, Structural)]
pub enum PluginRequestKind {
    ApiMetadata,
    FocusedDocument,
    FocusedView,
    ListDocuments,
    ListViews,
    LanguageServers,
    EditorConfig,
    TerminalSize,
    ReadRegister,
    WriteRegister,
    RequestRedraw,
    DocumentSnapshot,
    ViewSnapshot,
    WorkspaceSnapshot,
    ThemeSnapshot,
    Diagnostics,
    DocumentText,
    DocumentLine,
    ApplyEdit,
    SetSelection,
    SaveDocument,
    FocusView,
    SetAnnotations,
    SetStatus,
    Undo,
    Redo,
    SelectAll,
    SetMode,
    CloseView,
    Notify,
    Prompt,
    Confirm,
    Picker,
    RegisterPanel,
    UpdatePanel,
    ClosePanel,
    TogglePanel,
    FocusPanel,
    ResizePanel,
    ListPanels,
    CommandCatalog,
    RegisterCommand,
    UpdateCommand,
    RemoveCommand,
    ReleaseResources,
    RegisterKeymap,
    UpdateKeymap,
    RemoveKeymap,
    Subscribe,
    Unsubscribe,
    EventCatalog,
    SplitView,
    FocusDirection,
    SwapSplit,
    ResizeSplit,
    Transpose,
    SplitTree,
    OpenTab,
    CloseTab,
    FocusTab,
    CycleTab,
    ListTabs,
    CreateFloat,
    UpdateFloat,
    CloseFloat,
    ListFloats,
    AssistantSnapshot,
    ThreadSnapshot,
    ThreadEntries,
    ThreadContext,
    SubmitPrompt,
    CancelThread,
    WorkspaceDetail,
    Log,
}

/// Who meets a request.
#[derive(Debug, Clone, Copy, PartialEq, Eq, Structural)]
pub enum PluginHost {
    /// Nobody: the answer is always the same.
    Fixed,
    /// The editor, which is only looked at.
    Query,
    /// The editor, which may change.
    Mutation,
    Ui,
    Panel,
    Command,
    /// The registry of plugins.
    Registry,
    Keymap,
    Event,
    Log,
}

/// What an answer holds.
#[derive(Debug, Clone, Copy, PartialEq, Eq, Structural)]
pub enum ResponseKind {
    ApiMetadata,
    OptionDocumentHandle,
    OptionViewHandle,
    DocumentHandles,
    ViewHandles,
    LanguageServers,
    EditorConfig,
    TerminalSize,
    Strings,
    Unit,
    DocumentSnapshot,
    ViewSnapshot,
    WorkspaceSnapshot,
    ThemeSnapshot,
    DiagnosticSnapshot,
    DocumentText,
    DocumentLine,
    Bool,
    UiCallback,
    PanelHandle,
    PanelSnapshots,
    CommandCatalog,
    CommandHandle,
    KeymapHandle,
    SubscriptionHandle,
    EventCatalog,
    ViewHandle,
    OptionViewHandleResult,
    SplitTree,
    TabGroup,
    FloatHandle,
    FloatSnapshots,
    AssistantSnapshot,
    AssistantThreadSnapshot,
    AssistantEntries,
    AssistantContext,
    WorkspaceDetail,
}

pub open spec fn host_of(kind: PluginRequestKind) -> PluginHost {
    match kind {
        PluginRequestKind::ApiMetadata => PluginHost::Fixed,
        PluginRequestKind::FocusedDocument | PluginRequestKind::FocusedView
        | PluginRequestKind::ListDocuments | PluginRequestKind::ListViews
        | PluginRequestKind::LanguageServers | PluginRequestKind::EditorConfig
        | PluginRequestKind::TerminalSize | PluginRequestKind::ReadRegister
        | PluginRequestKind::DocumentSnapshot | PluginRequestKind::ViewSnapshot
        | PluginRequestKind::WorkspaceSnapshot | PluginRequestKind::ThemeSnapshot
        | PluginRequestKind::Diagnostics | PluginRequestKind::DocumentText
        | PluginRequestKind::DocumentLine | PluginRequestKind::AssistantSnapshot
        | PluginRequestKind::ThreadSnapshot | PluginRequestKind::ThreadEntries
        | PluginRequestKind::ThreadContext | PluginRequestKind::WorkspaceDetail => PluginHost::Query,
        PluginRequestKind::WriteRegister | PluginRequestKind::RequestRedraw
        | PluginRequestKind::ApplyEdit | PluginRequestKind::SetSelection
        | PluginRequestKind::SaveDocument | PluginRequestKind::FocusView
        | PluginRequestKind::SetAnnotations | PluginRequestKind::SetStatus
        | PluginRequestKind::Undo | PluginRequestKind::Redo | PluginRequestKind::SelectAll
        | PluginRequestKind::SetMode | PluginRequestKind::CloseView
        | PluginRequestKind::SplitView | PluginRequestKind::FocusDirection
        | PluginRequestKind::SwapSplit | PluginRequestKind::ResizeSplit
        | PluginRequestKind::Transpose | PluginRequestKind::SplitTree
        | PluginRequestKind::OpenTab | PluginRequestKind::CloseTab | PluginRequestKind::FocusTab
        | PluginRequestKind::CycleTab | PluginRequestKind::ListTabs
        | PluginRequestKind::CreateFloat | PluginRequestKind::UpdateFloat
        | PluginRequestKind::CloseFloat | PluginRequestKind::ListFloats
        | PluginRequestKind::SubmitPrompt | PluginRequestKind::CancelThread => PluginHost::Mutation,
        PluginRequestKind::Notify | PluginRequestKind::Prompt | PluginRequestKind::Confirm
        | PluginRequestKind::Picker => PluginHost::Ui,
        PluginRequestKind::RegisterPanel | PluginRequestKind::UpdatePanel
        | PluginRequestKind::ClosePanel | PluginRequestKind::TogglePanel
        | PluginRequestKind::FocusPanel | PluginRequestKind::ResizePanel
        | PluginRequestKind::ListPanels => PluginHost::Panel,
        PluginRequestKind::CommandCatalog | PluginRequestKind::RegisterCommand
        | PluginRequestKind::UpdateCommand | PluginRequestKind::RemoveCommand => PluginHost::Command,
        PluginRequestKind::ReleaseResources => PluginHost::Registry,
        PluginRequestKind::RegisterKeymap | PluginRequestKind::UpdateKeymap
        | PluginRequestKind::RemoveKeymap => PluginHost::Keymap,
        PluginRequestKind::Subscribe | PluginRequestKind::Unsubscribe
        | PluginRequestKind::EventCatalog => PluginHost::Event,
        PluginRequestKind::Log => PluginHost::Log,
    }
}

/// Who meets a request.
pub fn request_host(kind: PluginRequestKind) -> (r: PluginHost)
    ensures
        r == host_of(kind),
{
    match kind {
        PluginRequestKind::ApiMetadata => PluginHost::Fixed,
        PluginRequestKind::FocusedDocument | PluginRequestKind::FocusedView
        | PluginRequestKind::ListDocuments | PluginRequestKind::ListViews
        | PluginRequestKind::LanguageServers | PluginRequestKind::EditorConfig
        | PluginRequestKind::TerminalSize | PluginRequestKind::ReadRegister
        | PluginRequestKind::DocumentSnapshot | PluginRequestKind::ViewSnapshot
        | PluginRequestKind::WorkspaceSnapshot | PluginRequestKind::ThemeSnapshot
        | PluginRequestKind::Diagnostics | PluginRequestKind::DocumentText
        | PluginRequestKind::DocumentLine | PluginRequestKind::AssistantSnapshot
        | PluginRequestKind::ThreadSnapshot | PluginRequestKind::ThreadEntries
        | PluginRequestKind::ThreadContext | PluginRequestKind::WorkspaceDetail => PluginHost::Query,
        PluginRequestKind::WriteRegister | PluginRequestKind::RequestRedraw
        | PluginRequestKind::ApplyEdit | PluginRequestKind::SetSelection
        | PluginRequestKind::SaveDocument | PluginRequestKind::FocusView
        | PluginRequestKind::SetAnnotations | PluginRequestKind::SetStatus
        | PluginRequestKind::Undo | PluginRequestKind::Redo | PluginRequestKind::SelectAll
        | PluginRequestKind::SetMode | PluginRequestKind::CloseView
        | PluginRequestKind::SplitView | PluginRequestKind::FocusDirection
        | PluginRequestKind::SwapSplit | PluginRequestKind::ResizeSplit
        | PluginRequestKind::Transpose | PluginRequestKind::SplitTree
        | PluginRequestKind::OpenTab | PluginRequestKind::CloseTab | PluginRequestKind::FocusTab
        | PluginRequestKind::CycleTab | PluginRequestKind::ListTabs
        | PluginRequestKind::CreateFloat | PluginRequestKind::UpdateFloat
        | PluginRequestKind::CloseFloat | PluginRequestKind::ListFloats
        | PluginRequestKind::SubmitPrompt | PluginRequestKind::CancelThread => PluginHost::Mutation,
        PluginRequestKind::Notify | PluginRequestKind::Prompt | PluginRequestKind::Confirm
        | PluginRequestKind::Picker => PluginHost::Ui,
        PluginRequestKind::RegisterPanel | PluginRequestKind::UpdatePanel
        | PluginRequestKind::ClosePanel | PluginRequestKind::TogglePanel
        | PluginRequestKind::FocusPanel | PluginRequestKind::ResizePanel
        | PluginRequestKind::ListPanels => PluginHost::Panel,
        PluginRequestKind::CommandCatalog | PluginRequestKind::RegisterCommand
        | PluginRequestKind::UpdateCommand | PluginRequestKind::RemoveCommand => PluginHost::Command,
        PluginRequestKind::ReleaseResources => PluginHost::Registry,
        PluginRequestKind::RegisterKeymap | PluginRequestKind::UpdateKeymap
        | PluginRequestKind::RemoveKeymap => PluginHost::Keymap,
        PluginRequestKind::Subscribe | PluginRequestKind::Unsubscribe
        | PluginRequestKind::EventCatalog => PluginHost::Event,
        PluginRequestKind::Log => PluginHost::Log,
    }
}

pub open spec fn response_of(kind: PluginRequestKind) -> ResponseKind {
    match kind {
        PluginRequestKind::ApiMetadata => ResponseKind::ApiMetadata,
        PluginRequestKind::FocusedDocument => ResponseKind::OptionDocumentHandle,
        PluginRequestKind::FocusedView => ResponseKind::OptionViewHandle,
        PluginRequestKind::ListDocuments => ResponseKind::DocumentHandles,
        PluginRequestKind::ListViews => ResponseKind::ViewHandles,
        PluginRequestKind::LanguageServers => ResponseKind::LanguageServers,
        PluginRequestKind::EditorConfig => ResponseKind::EditorConfig,
        PluginRequestKind::TerminalSize => ResponseKind::TerminalSize,
        PluginRequestKind::ReadRegister => ResponseKind::Strings,
        PluginRequestKind::WriteRegister | PluginRequestKind::RequestRedraw
        | PluginRequestKind::ApplyEdit | PluginRequestKind::SetSelection
        | PluginRequestKind::SaveDocument | PluginRequestKind::FocusView
        | PluginRequestKind::SetAnnotations | PluginRequestKind::SetStatus
        | PluginRequestKind::SelectAll | PluginRequestKind::SetMode
        | PluginRequestKind::CloseView | PluginRequestKind::Notify
        | PluginRequestKind::UpdatePanel | PluginRequestKind::ClosePanel
        | PluginRequestKind::TogglePanel | PluginRequestKind::FocusPanel
        | PluginRequestKind::ResizePanel | PluginRequestKind::UpdateCommand
        | PluginRequestKind::RemoveCommand | PluginRequestKind::ReleaseResources
        | PluginRequestKind::UpdateKeymap | PluginRequestKind::RemoveKeymap
        | PluginRequestKind::Unsubscribe | PluginRequestKind::SwapSplit
        | PluginRequestKind::ResizeSplit | PluginRequestKind::Transpose
        | PluginRequestKind::OpenTab | PluginRequestKind::CloseTab | PluginRequestKind::FocusTab
        | PluginRequestKind::CycleTab | PluginRequestKind::UpdateFloat
        | PluginRequestKind::CloseFloat | PluginRequestKind::SubmitPrompt
        | PluginRequestKind::CancelThread | PluginRequestKind::Log => ResponseKind::Unit,
        PluginRequestKind::DocumentSnapshot => ResponseKind::DocumentSnapshot,
        PluginRequestKind::ViewSnapshot => ResponseKind::ViewSnapshot,
        PluginRequestKind::WorkspaceSnapshot => ResponseKind::WorkspaceSnapshot,
        PluginRequestKind::ThemeSnapshot => ResponseKind::ThemeSnapshot,
        PluginRequestKind::Diagnostics => ResponseKind::DiagnosticSnapshot,
        PluginRequestKind::DocumentText => ResponseKind::DocumentText,
        PluginRequestKind::DocumentLine => ResponseKind::DocumentLine,
        PluginRequestKind::Undo | PluginRequestKind::Redo => ResponseKind::Bool,
        PluginRequestKind::Prompt | PluginRequestKind::Confirm | PluginRequestKind::Picker => ResponseKind::UiCallback,
        PluginRequestKind::RegisterPanel => ResponseKind::PanelHandle,
        PluginRequestKind::ListPanels => ResponseKind::PanelSnapshots,
        PluginRequestKind::CommandCatalog => ResponseKind::CommandCatalog,
        PluginRequestKind::RegisterCommand => ResponseKind::CommandHandle,
        PluginRequestKind::RegisterKeymap => ResponseKind::KeymapHandle,
        PluginRequestKind::Subscribe => ResponseKind::SubscriptionHandle,
        PluginRequestKind::EventCatalog => ResponseKind::EventCatalog,
        PluginRequestKind::SplitView => ResponseKind::ViewHandle,
        PluginRequestKind::FocusDirection => ResponseKind::OptionViewHandleResult,
        PluginRequestKind::SplitTree => ResponseKind::SplitTree,
        PluginRequestKind::ListTabs => ResponseKind::TabGroup,
        PluginRequestKind::CreateFloat => ResponseKind::FloatHandle,
        PluginRequestKind::ListFloats => ResponseKind::FloatSnapshots,
        PluginRequestKind::AssistantSnapshot => ResponseKind::AssistantSnapshot,
        PluginRequestKind::ThreadSnapshot => ResponseKind::AssistantThreadSnapshot,
        PluginRequestKind::ThreadEntries => ResponseKind::AssistantEntries,
        PluginRequestKind::ThreadContext => ResponseKind::AssistantContext,
        PluginRequestKind::WorkspaceDetail => ResponseKind::WorkspaceDetail,
    }
}

/// What the answer to a request holds.
pub fn response_kind(kind: PluginRequestKind) -> (r: ResponseKind)
    ensures
        r == response_of(kind),
{
    match kind {
        PluginRequestKind::ApiMetadata => ResponseKind::ApiMetadata,
        PluginRequestKind::FocusedDocument => ResponseKind::OptionDocumentHandle,
        PluginRequestKind::FocusedView => ResponseKind::OptionViewHandle,
        PluginRequestKind::ListDocuments => ResponseKind::DocumentHandles,
        PluginRequestKind::ListViews => ResponseKind::ViewHandles,
        PluginRequestKind::LanguageServers => ResponseKind::LanguageServers,
        PluginRequestKind::EditorConfig => ResponseKind::EditorConfig,
        PluginRequestKind::TerminalSize => ResponseKind::TerminalSize,
        PluginRequestKind::ReadRegister => ResponseKind::Strings,
        PluginRequestKind::WriteRegister | PluginRequestKind::RequestRedraw
        | PluginRequestKind::ApplyEdit | PluginRequestKind::SetSelection
        | PluginRequestKind::SaveDocument | PluginRequestKind::FocusView
        | PluginRequestKind::SetAnnotations | PluginRequestKind::SetStatus
        | PluginRequestKind::SelectAll | PluginRequestKind::SetMode
        | PluginRequestKind::CloseView | PluginRequestKind::Notify
        | PluginRequestKind::UpdatePanel | PluginRequestKind::ClosePanel
        | PluginRequestKind::TogglePanel | PluginRequestKind::FocusPanel
        | PluginRequestKind::ResizePanel | PluginRequestKind::UpdateCommand
        | PluginRequestKind::RemoveCommand | PluginRequestKind::ReleaseResources
        | PluginRequestKind::UpdateKeymap | PluginRequestKind::RemoveKeymap
        | PluginRequestKind::Unsubscribe | PluginRequestKind::SwapSplit
        | PluginRequestKind::ResizeSplit | PluginRequestKind::Transpose
        | PluginRequestKind::OpenTab | PluginRequestKind::CloseTab | PluginRequestKind::FocusTab
        | PluginRequestKind::CycleTab | PluginRequestKind::UpdateFloat
        | PluginRequestKind::CloseFloat | PluginRequestKind::SubmitPrompt
        | PluginRequestKind::CancelThread | PluginRequestKind::Log => ResponseKind::Unit,
        PluginRequestKind::DocumentSnapshot => ResponseKind::DocumentSnapshot,
        PluginRequestKind::ViewSnapshot => ResponseKind::ViewSnapshot,
        PluginRequestKind::WorkspaceSnapshot => ResponseKind::WorkspaceSnapshot,
        PluginRequestKind::ThemeSnapshot => ResponseKind::ThemeSnapshot,
        PluginRequestKind::Diagnostics => ResponseKind::DiagnosticSnapshot,
        PluginRequestKind::DocumentText => ResponseKind::DocumentText,
        PluginRequestKind::DocumentLine => ResponseKind::DocumentLine,
        PluginRequestKind::Undo | PluginRequestKind::Redo => ResponseKind::Bool,
        PluginRequestKind::Prompt | PluginRequestKind::Confirm | PluginRequestKind::Picker => ResponseKind::UiCallback,
        PluginRequestKind::RegisterPanel => ResponseKind::PanelHandle,
        PluginRequestKind::ListPanels => ResponseKind::PanelSnapshots,
        PluginRequestKind::CommandCatalog => ResponseKind::CommandCatalog,
        PluginRequestKind::RegisterCommand => ResponseKind::CommandHandle,
        PluginRequestKind::RegisterKeymap => ResponseKind::KeymapHandle,
        PluginRequestKind::Subscribe => ResponseKind::SubscriptionHandle,
        PluginRequestKind::EventCatalog => ResponseKind::EventCatalog,
        PluginRequestKind::SplitView => ResponseKind::ViewHandle,
        PluginRequestKind::FocusDirection => ResponseKind::OptionViewHandleResult,
        PluginRequestKind::SplitTree => ResponseKind::SplitTree,
        PluginRequestKind::ListTabs => ResponseKind::TabGroup,
        PluginRequestKind::CreateFloat => ResponseKind::FloatHandle,
        PluginRequestKind::ListFloats => ResponseKind::FloatSnapshots,
        PluginRequestKind::AssistantSnapshot => ResponseKind::AssistantSnapshot,
        PluginRequestKind::ThreadSnapshot => ResponseKind::AssistantThreadSnapshot,
        PluginRequestKind::ThreadEntries => ResponseKind::AssistantEntries,
        PluginRequestKind::ThreadContext => ResponseKind::AssistantContext,
        PluginRequestKind::WorkspaceDetail => ResponseKind::WorkspaceDetail,
    }
}

/// After such a request the plugin owns something that has to be released with it.
pub open spec fn tracks_plugin(kind: PluginRequestKind) -> bool {
    ||| kind == PluginRequestKind::RegisterPanel
    ||| kind == PluginRequestKind::RegisterCommand
    ||| kind == PluginRequestKind::RegisterKeymap
    ||| kind == PluginRequestKind::Subscribe
    ||| kind == PluginRequestKind::CreateFloat
}

/// Such a request is met by something that only one request at a time can use.
pub open spec fn locks_state(kind: PluginRequestKind) -> bool {
    match host_of(kind) {
        PluginHost::Ui | PluginHost::Panel | PluginHost::Command | PluginHost::Keymap
        | PluginHost::Event => true,
        _ => false,
    }
}

/// An answer: what was asked for.
#[derive(Debug)]
pub struct HostResponse<P> {
    pub kind: ResponseKind,
    pub value: P,
}

/// How far meeting a request has come, and how that went.
#[derive(Debug)]
pub enum ServiceStage<P, E> {
    Start,
    /// Whether the plugin could be noted as an owner.
    Noted(Result<(), E>),
    /// Whether the state could be had.
    Locked(Result<(), E>),
    /// What the host made of the request.
    Met(Result<P, E>),
}

/// What is done next to meet a request.
#[derive(Debug)]
pub enum ServiceStep<P, E> {
    /// The plugin is noted as an owner.
    NotePlugin,
    /// The state is had, if nobody else has it.
    LockState,
    /// The host meets the request.
    Meet(PluginHost),
    Respond(Result<HostResponse<P>, E>),
}

/// What is done once the plugin is noted, where it has to be.
pub open spec fn after_noting<P, E>(kind: PluginRequestKind) -> ServiceStep<P, E> {
    if locks_state(kind) {
        ServiceStep::LockState
    } else {
        ServiceStep::Meet(host_of(kind))
    }
}

/// What is done next to meet a request that has come this far.
pub open spec fn next_service<P, E>(
    kind: PluginRequestKind,
    stage: ServiceStage<P, E>,
) -> ServiceStep<P, E> {
    match stage {
        ServiceStage::Start => if tracks_plugin(kind) {
            ServiceStep::NotePlugin
        } else {
            after_noting(kind)
        },
        ServiceStage::Noted(Ok(_)) => after_noting(kind),
        ServiceStage::Locked(Ok(_)) => ServiceStep::Meet(host_of(kind)),
        ServiceStage::Met(Ok(value)) => ServiceStep::Respond(
            Ok(HostResponse { kind: response_of(kind), value }),
        ),
        ServiceStage::Noted(Err(error)) | ServiceStage::Locked(Err(error))
        | ServiceStage::Met(Err(error)) => ServiceStep::Respond(Err(error)),
    }
}

/// What is done next to meet a request. The plugin is noted before the state is had, and that
/// before the request is met; the first thing that goes wrong is the answer.
pub fn service_plugin_host_request<P, E>(
    kind: PluginRequestKind,
    stage: ServiceStage<P, E>,
) -> (r: ServiceStep<P, E>)
    ensures
        r == next_service(kind, stage),
{
    let host = request_host(kind);
    let locks = match host {
        PluginHost::Ui | PluginHost::Panel | PluginHost::Command | PluginHost::Keymap
        | PluginHost::Event => true,
        _ => false,
    };
    let tracks = match kind {
        PluginRequestKind::RegisterPanel | PluginRequestKind::RegisterCommand
        | PluginRequestKind::RegisterKeymap | PluginRequestKind::Subscribe
        | PluginRequestKind::CreateFloat => true,
        _ => false,
    };
    match stage {
        ServiceStage::Start if tracks => ServiceStep::NotePlugin,
        ServiceStage::Start | ServiceStage::Noted(Ok(_)) => if locks {
            ServiceStep::LockState
        } else {
            ServiceStep::Meet(host)
        },
        ServiceStage::Locked(Ok(_)) => ServiceStep::Meet(host),
        ServiceStage::Met(Ok(value)) => ServiceStep::Respond(
            Ok(HostResponse { kind: response_kind(kind), value }),
        ),
        ServiceStage::Noted(Err(error)) | ServiceStage::Locked(Err(error))
        | ServiceStage::Met(Err(error)) => ServiceStep::Respond(Err(error)),
    }
}

/// How often a request is met from some stage on, and how it is answered, where the parts go as
/// said. Nothing is said of more than `fuel` stages.
pub open spec fn serves<P, E>(
    kind: PluginRequestKind,
    stage: ServiceStage<P, E>,
    noted: Result<(), E>,
    locked: Result<(), E>,
    met: Result<P, E>,
    fuel: nat,
) -> (nat, Option<Result<HostResponse<P>, E>>)
    decreases fuel,
{
    if fuel == 0 {
        (0, None)
    } else {
        let next = (fuel - 1) as nat;
        match next_service(kind, stage) {
            ServiceStep::NotePlugin => serves(
                kind,
                ServiceStage::Noted(noted),
                noted,
                locked,
                met,
                next,
            ),
            ServiceStep::LockState => serves(
                kind,
                ServiceStage::Locked(locked),
                noted,
                locked,
                met,
                next,
            ),
            ServiceStep::Meet(_) => {
                let (times, answer) = serves(
                    kind,
                    ServiceStage::Met(met),
                    noted,
                    locked,
                    met,
                    next,
                );
                (times + 1, answer)
            },
            ServiceStep::Respond(answer) => (0, Some(answer)),
        }
    }
}

/// A request is met once, or not at all where the plugin has to be noted and cannot be, or the
/// state is needed and cannot be had; the answer is the first thing that went wrong, or else what
/// was asked for.
pub proof fn law_requests_are_met_when_all_is_ready<P, E>(
    kind: PluginRequestKind,
    noted: Result<(), E>,
    locked: Result<(), E>,
    met: Result<P, E>,
)
    ensures
        serves(kind, ServiceStage::Start, noted, locked, met, 4) == if tracks_plugin(kind)
            && noted is Err {
            (0nat, Some(Err::<HostResponse<P>, E>(noted->Err_0)))
        } else if locks_state(kind) && locked is Err {
            (0nat, Some(Err::<HostResponse<P>, E>(locked->Err_0)))
        } else {
            (
                1nat,
                Some(
                    match met {
                        Ok(value) => Ok(HostResponse { kind: response_of(kind), value }),
                        Err(error) => Err(error),
                    },
                ),
            )
        },
{
    reveal_with_fuel(serves, 5);
}

/// A plugin is noted as an owner exactly where the answer hands it something that it registered.
pub proof fn law_owners_are_noted(kind: PluginRequestKind)
    ensures
        tracks_plugin(kind) <==> {
            ||| response_of(kind) == ResponseKind::PanelHandle
            ||| response_of(kind) == ResponseKind::CommandHandle
            ||| response_of(kind) == ResponseKind::KeymapHandle
            ||| response_of(kind) == ResponseKind::SubscriptionHandle
            ||| response_of(kind) == ResponseKind::FloatHandle
        },
{
}

/// What a plugin can have done beside the editor.
#[derive(Debug, Clone, Copy, PartialEq, Eq, Structural)]
pub enum PluginTaskKind {
    OpenDocument,
    SyntaxQuery,
    LspCall,
    RunCommand,
    SetTheme,
}

/// A request of a plugin.
#[derive(Debug, Clone, Copy, PartialEq, Eq, Structural)]
pub enum PluginRequest {
    StartTask(PluginTaskKind),
    CancelTask,
    Service(PluginRequestKind),
}

/// How far a request has come, and how that went.
#[derive(Debug)]
pub enum Stage<E> {
    /// Whether plugins are served at all.
    Start(Result<(), E>),
    Prepared(Result<(), E>),
    Begun(Result<(), E>),
    Admitted(Result<(), E>),
    Canceled(Result<(), E>),
}

/// What comes next.
#[derive(Debug)]
pub enum HostStep<E> {
    /// What the task needs is put together.
    Prepare,
    /// The task is entered as running.
    Begin,
    /// The task is handed to the user interface.
    Admit,
    /// The task runs.
    Launch,
    /// The task is called off.
    Cancel,
    /// A document that the task was opening is not opened.
    CancelDocumentOpen,
    /// The request is met and answered.
    Service,
    Respond(Result<(), E>),
}

/// What comes next for a request that has come this far.
pub open spec fn next_steps<E>(request: PluginRequest, stage: Stage<E>) -> Seq<HostStep<E>> {
    match stage {
        Stage::Start(Err(error)) => seq![HostStep::Respond(Err(error))],
        Stage::Start(Ok(_)) => match request {
            PluginRequest::StartTask(PluginTaskKind::SyntaxQuery)
            | PluginRequest::StartTask(PluginTaskKind::LspCall) => seq![HostStep::Prepare],
            PluginRequest::StartTask(_) => seq![HostStep::Begin],
            PluginRequest::CancelTask => seq![HostStep::Cancel],
            PluginRequest::Service(_) => seq![HostStep::Service],
        },
        Stage::Prepared(Err(error)) => seq![HostStep::Respond(Err(error))],
        Stage::Prepared(Ok(_)) => seq![HostStep::Begin],
        Stage::Begun(Err(error)) => seq![HostStep::Respond(Err(error))],
        Stage::Begun(Ok(_)) => if request == PluginRequest::StartTask(PluginTaskKind::RunCommand) {
            seq![HostStep::Admit]
        } else {
            seq![HostStep::Respond(Ok(())), HostStep::Launch]
        },
        Stage::Admitted(Err(error)) => seq![HostStep::Cancel, HostStep::Respond(Err(error))],
        Stage::Admitted(Ok(_)) => seq![HostStep::Respond(Ok(()))],
        Stage::Canceled(Err(error)) => seq![HostStep::Respond(Err(error))],
        Stage::Canceled(Ok(_)) => seq![HostStep::CancelDocumentOpen, HostStep::Respond(Ok(()))],
    }
}

/// What comes next for a request. Preparing comes before the task is entered as running, so that
/// a task that cannot be prepared is never running.
pub fn apply_plugin_host_request<E>(request: PluginRequest, stage: Stage<E>) -> (r: Vec<HostStep<E>>)
    ensures
        r@ == next_steps(request, stage),
{
    let mut steps: Vec<HostStep<E>> = Vec::new();
    match stage {
        Stage::Start(Err(error)) | Stage::Prepared(Err(error)) | Stage::Begun(Err(error))
        | Stage::Canceled(Err(error)) => {
            steps.push(HostStep::Respond(Err(error)));
        },
        Stage::Start(Ok(_)) => match request {
            PluginRequest::StartTask(PluginTaskKind::SyntaxQuery)
            | PluginRequest::StartTask(PluginTaskKind::LspCall) => {
                steps.push(HostStep::Prepare);
            },
            PluginRequest::StartTask(_) => {
                steps.push(HostStep::Begin);
            },
            PluginRequest::CancelTask => {
                steps.push(HostStep::Cancel);
            },
            PluginRequest::Service(_) => {
                steps.push(HostStep::Service);
            },
        },
        Stage::Prepared(Ok(_)) => {
            steps.push(HostStep::Begin);
        },
        Stage::Begun(Ok(_)) => {
            if request == PluginRequest::StartTask(PluginTaskKind::RunCommand) {
                steps.push(HostStep::Admit);
            } else {
                steps.push(HostStep::Respond(Ok(())));
                steps.push(HostStep::Launch);
            }
        },
        Stage::Admitted(Err(error)) => {
            steps.push(HostStep::Cancel);
            steps.push(HostStep::Respond(Err(error)));
        },
        Stage::Admitted(Ok(_)) => {
            steps.push(HostStep::Respond(Ok(())));
        },
        Stage::Canceled(Ok(_)) => {
            steps.push(HostStep::CancelDocumentOpen);
            steps.push(HostStep::Respond(Ok(())));
        },
    }
    assert(steps@ =~= next_steps(request, stage));
    steps
}

/// How many answers the steps give.
pub open spec fn answers<E>(steps: Seq<HostStep<E>>) -> nat
    decreases steps.len(),
{
    if steps.len() == 0 {
        0
    } else {
        answers(steps.drop_last()) + (if steps.last() is Respond || steps.last() is Service {
            1nat
        } else {
            0
        })
    }
}

/// Where the steps lead next, if they lead on.
pub open spec fn leads_on<E>(
    steps: Seq<HostStep<E>>,
    prepared: Result<(), E>,
    begun: Result<(), E>,
    admitted: Result<(), E>,
    canceled: Result<(), E>,
) -> Option<Stage<E>> {
    if steps == seq![HostStep::<E>::Prepare] {
        Some(Stage::Prepared(prepared))
    } else if steps == seq![HostStep::<E>::Begin] {
        Some(Stage::Begun(begun))
    } else if steps == seq![HostStep::<E>::Admit] {
        Some(Stage::Admitted(admitted))
    } else if steps == seq![HostStep::<E>::Cancel] {
        Some(Stage::Canceled(canceled))
    } else {
        None
    }
}

/// How many answers a request gets from some stage on, in at most `fuel` stages.
pub open spec fn answers_from<E>(
    request: PluginRequest,
    stage: Stage<E>,
    prepared: Result<(), E>,
    begun: Result<(), E>,
    admitted: Result<(), E>,
    canceled: Result<(), E>,
    fuel: nat,
) -> nat
    decreases fuel,
{
    if fuel == 0 {
        0
    } else {
        let steps = next_steps(request, stage);
        answers(steps) + match leads_on(steps, prepared, begun, admitted, canceled) {
            Some(next) => answers_from(
                request,
                next,
                prepared,
                begun,
                admitted,
                canceled,
                (fuel - 1) as nat,
            ),
            None => 0,
        }
    }
}

/// A request is answered exactly once, whatever goes wrong.
pub proof fn law_requests_are_answered_once<E>(
    request: PluginRequest,
    active: Result<(), E>,
    prepared: Result<(), E>,
    begun: Result<(), E>,
    admitted: Result<(), E>,
    canceled: Result<(), E>,
)
    ensures
        answers_from(request, Stage::Start(active), prepared, begun, admitted, canceled, 4) == 1,
{
    reveal_with_fuel(answers, 3);
    reveal_with_fuel(answers_from, 5);
    lemma_steps(request, Stage::Start(active));
    lemma_steps(request, Stage::Prepared(prepared));
    lemma_steps(request, Stage::Begun(begun));
    lemma_steps(request, Stage::Admitted(admitted));
    lemma_steps(request, Stage::Canceled(canceled));
    lemma_single_steps_differ::<E>();
}

proof fn lemma_single_steps_differ<E>()
    ensures
        seq![HostStep::<E>::Prepare] != seq![HostStep::<E>::Begin],
        seq![HostStep::<E>::Prepare] != seq![HostStep::<E>::Admit],
        seq![HostStep::<E>::Prepare] != seq![HostStep::<E>::Cancel],
        seq![HostStep::<E>::Begin] != seq![HostStep::<E>::Admit],
        seq![HostStep::<E>::Begin] != seq![HostStep::<E>::Cancel],
        seq![HostStep::<E>::Admit] != seq![HostStep::<E>::Cancel],
{
    assert(seq![HostStep::<E>::Prepare][0] != seq![HostStep::<E>::Begin][0]);
    assert(seq![HostStep::<E>::Prepare][0] != seq![HostStep::<E>::Admit][0]);
    assert(seq![HostStep::<E>::Prepare][0] != seq![HostStep::<E>::Cancel][0]);
    assert(seq![HostStep::<E>::Begin][0] != seq![HostStep::<E>::Admit][0]);
    assert(seq![HostStep::<E>::Begin][0] != seq![HostStep::<E>::Cancel][0]);
    assert(seq![HostStep::<E>::Admit][0] != seq![HostStep::<E>::Cancel][0]);
}

/// A stage either leads on, with a single step and no answer, or answers once.
proof fn lemma_steps<E>(request: PluginRequest, stage: Stage<E>)
    ensures
        ({
            let steps = next_steps(request, stage);
            if steps == seq![HostStep::<E>::Prepare] || steps == seq![HostStep::<E>::Begin] || steps
                == seq![HostStep::<E>::Admit] || steps == seq![HostStep::<E>::Cancel] {
                answers(steps) == 0
            } else {
                answers(steps) == 1
            }
        }),
{
    reveal_with_fuel(answers, 4);
    let steps = next_steps(request, stage);
    assert(steps.len() == 1 || steps.len() == 2);
    assert(steps.drop_last().len() == steps.len() - 1);
    if steps.len() == 1 {
        assert(steps =~= seq![steps[0]]);
    } else {
        assert(steps.drop_last() =~= seq![steps[0]]);
        assert(steps.drop_last().drop_last() =~= seq![]);
    }
}

/// How a document that a plugin has opened is shown.
#[derive(Debug, Clone, Copy, PartialEq, Eq, Structural)]
pub enum OpenAction {
    /// In the view that has the focus.
    Replace,
    /// Not at all.
    Load,
}

pub fn plugin_open_action(focus: bool) -> (r: OpenAction)
    ensures
        r == if focus {
            OpenAction::Replace
        } else {
            OpenAction::Load
        },
{
    if focus {
        OpenAction::Replace
    } else {
        OpenAction::Load
    }
}

/// What has happened in the editor, as it is signalled.
#[derive(Debug)]
#[allow(inconsistent_fields)]
pub enum PluginNotification {
    BufferOpen { document: u64, path: Option<String> },
    BufferChanged { document: u64 },
    BufferClosed { document: u64 },
    SelectionChange { document: u64 },
    ModeChange { old_mode: String, new_mode: String },
    KeyPress { key: String },
    LspDiagnostic { document: u64, count: usize },
}

/// What the editor knows that a signal does not say.
#[derive(Debug)]
pub struct NotificationContext {
    /// The language of the document, if the document is there and has one.
    pub language: Option<String>,
    /// The view that has the focus, if it is there.
    pub focused_view: Option<u64>,
    /// The line and column of the cursor, if the document is there.
    pub cursor: Option<(usize, usize)>,
    pub mode: String,
}

/// What plugins hear of.
#[derive(Debug)]
#[allow(inconsistent_fields)]
pub enum PluginEvent {
    DocumentOpened { document: u64, path: Option<String>, language: Option<String> },
    DocumentChanged { document: u64 },
    DocumentClosed { document: u64 },
    SelectionChanged { document: u64, view: u64, cursor: (usize, usize) },
    ModeChanged { old_mode: String, new_mode: String },
    KeyPressed { key: String, mode: String },
    DiagnosticsUpdated { document: u64, count: usize },
}

/// What plugins hear of a signal; nothing of a selection that nobody sees.
pub fn notification_to_event(notification: PluginNotification, context: NotificationContext) -> (r: Option<
    PluginEvent,
>)
    ensures
        r == match notification {
            PluginNotification::BufferOpen { document, path } => Some(
                PluginEvent::DocumentOpened { document, path, language: context.language },
            ),
            PluginNotification::BufferChanged { document } => Some(
                PluginEvent::DocumentChanged { document },
            ),
            PluginNotification::BufferClosed { document } => Some(
                PluginEvent::DocumentClosed { document },
            ),
            PluginNotification::SelectionChange { document } => match (
                context.focused_view,
                context.cursor,
            ) {
                (Some(view), Some(cursor)) => Some(
                    PluginEvent::SelectionChanged { document, view, cursor },
                ),
                _ => None,
            },
            PluginNotification::ModeChange { old_mode, new_mode } => Some(
                PluginEvent::ModeChanged { old_mode, new_mode },
            ),
            PluginNotification::KeyPress { key } => Some(
                PluginEvent::KeyPressed { key, mode: context.mode },
            ),
            PluginNotification::LspDiagnostic { document, count } => Some(
                PluginEvent::DiagnosticsUpdated { document, count },
            ),
        },
{
    match notification {
        PluginNotification::BufferOpen { document, path } => Some(
            PluginEvent::DocumentOpened { document, path, language: context.language },
        ),
        PluginNotification::BufferChanged { document } => Some(
            PluginEvent::DocumentChanged { document },
        ),
        PluginNotification::BufferClosed { document } => Some(
            PluginEvent::DocumentClosed { document },
        ),
        PluginNotification::SelectionChange { document } => match (
            context.focused_view,
            context.cursor,
        ) {
            (Some(view), Some(cursor)) => Some(
                PluginEvent::SelectionChanged { document, view, cursor },
            ),
            _ => None,
        },
        PluginNotification::ModeChange { old_mode, new_mode } => Some(
            PluginEvent::ModeChanged { old_mode, new_mode },
        ),
        PluginNotification::KeyPress { key } => Some(
            PluginEvent::KeyPressed { key, mode: context.mode },
        ),
        PluginNotification::LspDiagnostic { document, count } => Some(
            PluginEvent::DiagnosticsUpdated { document, count },
        ),
    }
}

/// What answers a request says of which kind it was, unless it is only that it was done, whether
/// it was, or that somebody will choose. Questions are never answered with that it was done.
pub proof fn law_answers_fit_their_requests(a: PluginRequestKind, b: PluginRequestKind)
    ensures
        response_of(a) == response_of(b) ==> a == b || response_of(a) == ResponseKind::Unit
            || response_of(a) == ResponseKind::Bool || response_of(a) == ResponseKind::UiCallback,
        host_of(a) == PluginHost::Query || host_of(a) == PluginHost::Fixed ==> response_of(a)
            != ResponseKind::Unit,
        response_of(a) == ResponseKind::UiCallback ==> host_of(a) == PluginHost::Ui,
        response_of(a) == ResponseKind::Bool <==> a == PluginRequestKind::Undo || a
            == PluginRequestKind::Redo,
        tracks_plugin(a) ==> response_of(a) != ResponseKind::Unit,
{
}

/// Whatever fails is what is answered; what was begun and cannot be handed on is called off first.
pub proof fn law_failures_are_answered<E>(request: PluginRequest, error: E)
    ensures
        next_steps(request, Stage::Start(Err(error))) == seq![HostStep::Respond(Err(error))],
        next_steps(request, Stage::Prepared(Err(error))) == seq![HostStep::Respond(Err(error))],
        next_steps(request, Stage::Begun(Err(error))) == seq![HostStep::Respond(Err(error))],
        next_steps(request, Stage::Canceled(Err(error))) == seq![HostStep::Respond(Err(error))],
        next_steps(request, Stage::Admitted(Err(error))).last() == HostStep::Respond(Err(error)),
        next_steps(request, Stage::Admitted(Err(error)))[0] == HostStep::<E>::Cancel,
{
}

/// A task is begun before it is answered, and answered before it runs; commands are handed to the
/// user interface instead, and tasks that need something first are prepared.
pub proof fn law_tasks_begin_before_they_run<E>(kind: PluginTaskKind)
    ensures
        ({
            let start = next_steps(
                PluginRequest::StartTask(kind),
                Stage::<E>::Start(Ok(())),
            );
            let prepared = next_steps(PluginRequest::StartTask(kind), Stage::<E>::Prepared(Ok(())));
            let begun = next_steps(PluginRequest::StartTask(kind), Stage::<E>::Begun(Ok(())));
            let admitted = next_steps(PluginRequest::StartTask(kind), Stage::<E>::Admitted(Ok(())));
            &&& kind == PluginTaskKind::SyntaxQuery || kind == PluginTaskKind::LspCall <==> start
                == seq![HostStep::<E>::Prepare]
            &&& start == seq![HostStep::<E>::Prepare] || start == seq![HostStep::<E>::Begin]
            &&& prepared == seq![HostStep::<E>::Begin]
            &&& kind == PluginTaskKind::RunCommand ==> begun == seq![HostStep::<E>::Admit]
            &&& kind != PluginTaskKind::RunCommand ==> begun == seq![
                HostStep::<E>::Respond(Ok(())),
                HostStep::<E>::Launch,
            ]
            &&& admitted == seq![HostStep::<E>::Respond(Ok(()))]
        }),
{
    let start = next_steps(PluginRequest::StartTask(kind), Stage::<E>::Start(Ok(())));
    assert(seq![HostStep::<E>::Prepare][0] != seq![HostStep::<E>::Begin][0]);
}

/// What is called off is not opened either, and then answered.
pub proof fn law_called_off_tasks_open_nothing<E>()
    ensures
        next_steps(PluginRequest::CancelTask, Stage::<E>::Start(Ok(()))) == seq![
            HostStep::<E>::Cancel,
        ],
        next_steps(PluginRequest::CancelTask, Stage::<E>::Canceled(Ok(()))) == seq![
            HostStep::<E>::CancelDocumentOpen,
            HostStep::<E>::Respond(Ok(())),
        ],
{
}

/// A service is met only once its plugin is noted and the state is had, as far as it needs either;
/// what comes of it is answered in the form of the request.
pub proof fn law_services_are_met_once_they_can_be<P, E>(
    kind: PluginRequestKind,
    value: P,
    error: E,
)
    ensures
        ({
            let start = next_service(kind, ServiceStage::<P, E>::Start);
            let noted = next_service(kind, ServiceStage::<P, E>::Noted(Ok(())));
            let locked = next_service(kind, ServiceStage::<P, E>::Locked(Ok(())));
            &&& tracks_plugin(kind) <==> start == ServiceStep::<P, E>::NotePlugin
            &&& !tracks_plugin(kind) ==> start == noted
            &&& locks_state(kind) <==> noted == ServiceStep::<P, E>::LockState
            &&& !locks_state(kind) ==> noted == locked
            &&& locked == ServiceStep::<P, E>::Meet(host_of(kind))
            &&& next_service(kind, ServiceStage::<P, E>::Met(Ok(value))) == ServiceStep::<
                P,
                E,
            >::Respond(Ok(HostResponse { kind: response_of(kind), value }))
            &&& next_service(kind, ServiceStage::<P, E>::Met(Err(error))) == ServiceStep::<
                P,
                E,
            >::Respond(Err(error))
            &&& next_service(kind, ServiceStage::<P, E>::Noted(Err(error))) == ServiceStep::<
                P,
                E,
            >::Respond(Err(error))
            &&& next_service(kind, ServiceStage::<P, E>::Locked(Err(error))) == ServiceStep::<
                P,
                E,
            >::Respond(Err(error))
        }),
{
}

/// The state is needed for what the user interface, panels, commands, keys and events are about,
/// and for nothing else.
pub proof fn law_the_state_is_had_where_it_is_needed(a: PluginRequestKind, b: PluginRequestKind)
    ensures
        host_of(a) == host_of(b) ==> locks_state(a) == locks_state(b),
        locks_state(a) ==> host_of(a) == PluginHost::Ui || host_of(a) == PluginHost::Panel
            || host_of(a) == PluginHost::Command || host_of(a) == PluginHost::Keymap || host_of(a)
            == PluginHost::Event,
        host_of(a) == PluginHost::Ui ==> locks_state(a),
        host_of(a) == PluginHost::Panel ==> locks_state(a),
        host_of(a) == PluginHost::Command ==> locks_state(a),
        host_of(a) == PluginHost::Keymap ==> locks_state(a),
        host_of(a) == PluginHost::Event ==> locks_state(a),
{
}

} // verus!
