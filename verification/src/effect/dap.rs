//! Debugging sessions: what debug adapters report and ask for, and what becomes of the answers
//! to questions put to them.

pub mod breakpoints;
pub mod completions;
pub mod events;
pub mod requests;
pub mod task;

use vstd::prelude::*;

use crate::collections::{IdMap, Ident};
use crate::text;
use crate::text::{join, signed_decimal_text};
use crate::effect::dap::breakpoints::{Breakpoint, FileBreakpoints};

verus! {

/// Questions to an adapter that supersede each other.
#[derive(Debug, Clone, Copy, PartialEq, Eq, Structural)]
pub enum DapOperation {
    StackTrace,
    Configuration,
    Termination,
}

/// A kind of question to one adapter.
#[derive(Debug, Clone, Copy, PartialEq, Eq, Structural)]
pub struct OperationKey {
    pub client_id: u64,
    pub operation: DapOperation,
}

impl Ident for OperationKey {
    fn same(&self, other: &Self) -> (r: bool) {
        *self == *other
    }
}

/// What a thread is doing.
#[derive(Debug)]
pub enum ThreadState {
    Running,
    /// It has stopped, for this reason.
    Stopped(String),
}

/// A call that has not returned.
#[derive(Debug)]
pub struct StackFrame {
    pub id: usize,
    pub path: Option<String>,
    pub line: usize,
    pub column: usize,
    pub end_line: Option<usize>,
    pub end_column: Option<usize>,
}

impl StackFrame {
    /// A frame that says the same.
    pub fn copy(&self) -> (r: StackFrame)
        ensures
            r == *self,
    {
        StackFrame {
            id: self.id,
            path: copy_text(&self.path),
            line: self.line,
            column: self.column,
            end_line: self.end_line,
            end_column: self.end_column,
        }
    }
}

pub fn copy_text(text: &Option<String>) -> (r: Option<String>)
    ensures
        r == *text,
{
    match text {
        Some(text) => Some(text.clone()),
        None => None,
    }
}

/// What is known about the program that an adapter runs.
#[derive(Debug)]
pub struct Debugger {
    pub thread_states: IdMap<i64, ThreadState>,
    /// The thread that is looked at.
    pub thread_id: Option<i64>,
    /// Which of its calls is looked at.
    pub active_frame: Option<usize>,
    pub stack_frames: IdMap<i64, Vec<StackFrame>>,
}

/// What a [`Debugger`] says.
pub struct DebuggerView {
    pub thread_states: Map<i64, ThreadState>,
    pub thread_id: Option<i64>,
    pub active_frame: Option<usize>,
    pub stack_frames: Map<i64, Vec<StackFrame>>,
}

impl View for Debugger {
    type V = DebuggerView;

    open spec fn view(&self) -> DebuggerView {
        DebuggerView {
            thread_states: self.thread_states@,
            thread_id: self.thread_id,
            active_frame: self.active_frame,
            stack_frames: self.stack_frames@,
        }
    }
}

impl Debugger {
    pub open spec fn wf(self) -> bool {
        self.thread_states.wf() && self.stack_frames.wf()
    }

    pub fn new() -> (r: Debugger)
        ensures
            r.wf(),
            r@ == (DebuggerView {
                thread_states: Map::empty(),
                thread_id: None,
                active_frame: None,
                stack_frames: Map::empty(),
            }),
    {
        Debugger {
            thread_states: IdMap::new(),
            thread_id: None,
            active_frame: None,
            stack_frames: IdMap::new(),
        }
    }
}

/// All debugging sessions.
#[derive(Debug)]
pub struct DebugState {
    pub clients: IdMap<u64, Debugger>,
    /// The adapter that commands go to.
    pub active: Option<u64>,
    /// The last question of each kind.
    pub operations: IdMap<OperationKey, u64>,
    pub breakpoints: Vec<FileBreakpoints>,
}

/// What a [`DebugState`] says.
pub struct DebugView {
    pub clients: Map<u64, DebuggerView>,
    pub active: Option<u64>,
    pub operations: Map<OperationKey, u64>,
    pub breakpoints: Seq<breakpoints::FileView>,
}

pub open spec fn client_views(clients: Map<u64, Debugger>) -> Map<u64, DebuggerView> {
    Map::new(|id: u64| clients.dom().contains(id), |id: u64| clients[id]@)
}

pub proof fn lemma_client_views_insert(clients: Map<u64, Debugger>, id: u64, debugger: Debugger)
    ensures
        client_views(clients.insert(id, debugger)) == client_views(clients).insert(id, debugger@),
{
    assert(client_views(clients.insert(id, debugger)) =~= client_views(clients).insert(
        id,
        debugger@,
    ));
}

pub proof fn lemma_client_views_remove(clients: Map<u64, Debugger>, id: u64)
    ensures
        client_views(clients.remove(id)) == client_views(clients).remove(id),
{
    assert(client_views(clients.remove(id)) =~= client_views(clients).remove(id));
}

impl View for DebugState {
    type V = DebugView;

    open spec fn view(&self) -> DebugView {
        DebugView {
            clients: client_views(self.clients@),
            active: self.active,
            operations: self.operations@,
            breakpoints: breakpoints::file_views(self.breakpoints@),
        }
    }
}

impl DebugView {
    /// The number of the next question.
    pub open spec fn next_generation(self, client_id: u64, operation: DapOperation) -> u64 {
        let key = OperationKey { client_id, operation };
        if self.operations.dom().contains(key) {
            (self.operations[key] + 1) as u64
        } else {
            1
        }
    }

    /// The next question can be numbered.
    pub open spec fn can_begin(self, client_id: u64, operation: DapOperation) -> bool {
        let key = OperationKey { client_id, operation };
        self.operations.dom().contains(key) ==> self.operations[key] < u64::MAX
    }

    /// Questions of all kinds can be numbered.
    pub open spec fn has_room(self, client_id: u64) -> bool {
        forall|operation: DapOperation| #[trigger] self.can_begin(client_id, operation)
    }

    /// A new question has been put, which supersedes the last of its kind.
    pub open spec fn begun(self, client_id: u64, operation: DapOperation) -> DebugView {
        DebugView {
            operations: self.operations.insert(
                OperationKey { client_id, operation },
                self.next_generation(client_id, operation),
            ),
            ..self
        }
    }

    /// This is the last question of its kind.
    pub open spec fn is_current(self, client_id: u64, operation: DapOperation, generation: u64) -> bool {
        let key = OperationKey { client_id, operation };
        self.operations.dom().contains(key) && self.operations[key] == generation
    }

    pub open spec fn has_client(self, client_id: u64) -> bool {
        self.clients.dom().contains(client_id)
    }

    /// The adapter that commands go to, while it is there.
    pub open spec fn active_client(self) -> Option<u64> {
        match self.active {
            Some(id) if self.has_client(id) => Some(id),
            _ => None,
        }
    }

    /// One adapter's program has changed.
    pub open spec fn with_client(self, client_id: u64, debugger: DebuggerView) -> DebugView {
        DebugView { clients: self.clients.insert(client_id, debugger), ..self }
    }
}

impl DebugState {
    pub open spec fn wf(self) -> bool {
        &&& self.clients.wf()
        &&& self.operations.wf()
        &&& forall|id: u64| self.clients@.dom().contains(id) ==> (#[trigger] self.clients@[id]).wf()
    }

    pub fn new() -> (r: DebugState)
        ensures
            r.wf(),
            r@.clients == Map::<u64, DebuggerView>::empty(),
            r@.operations == Map::<OperationKey, u64>::empty(),
            r@.active is None,
            r@.breakpoints.len() == 0,
    {
        let r = DebugState {
            clients: IdMap::new(),
            active: None,
            operations: IdMap::new(),
            breakpoints: Vec::new(),
        };
        assert(r@.clients =~= Map::<u64, DebuggerView>::empty());
        r
    }

    /// Puts a question, which supersedes the last of its kind.
    pub fn begin_operation(&mut self, client_id: u64, operation: DapOperation) -> (generation: u64)
        requires
            old(self).wf(),
            old(self)@.can_begin(client_id, operation),
        ensures
            final(self).wf(),
            final(self)@ == old(self)@.begun(client_id, operation),
            generation == old(self)@.next_generation(client_id, operation),
            final(self).clients == old(self).clients,
            final(self).breakpoints == old(self).breakpoints,
            final(self).active == old(self).active,
    {
        let key = OperationKey { client_id, operation };
        let generation: u64 = match self.operations.get(key) {
            Some(last) => *last + 1,
            None => 1,
        };
        self.operations.insert(key, generation);
        generation
    }

    /// Whether this is the last question of its kind.
    pub fn is_current_operation(&self, client_id: u64, operation: DapOperation, generation: u64) -> (r:
        bool)
        requires
            self.wf(),
        ensures
            r == self@.is_current(client_id, operation, generation),
    {
        match self.operations.get(OperationKey { client_id, operation }) {
            Some(last) => *last == generation,
            None => false,
        }
    }

    pub fn has_client(&self, client_id: u64) -> (r: bool)
        requires
            self.wf(),
        ensures
            r == self@.has_client(client_id),
    {
        self.clients.contains_key(client_id)
    }

    pub fn active_client(&self) -> (r: Option<u64>)
        requires
            self.wf(),
        ensures
            r == self@.active_client(),
    {
        match self.active {
            Some(id) => if self.clients.contains_key(id) {
                Some(id)
            } else {
                None
            },
            None => None,
        }
    }
}

/// A newer question makes the older ones of its kind stale, and no others.
pub proof fn law_newer_questions_supersede_older_ones(
    state: DebugView,
    client_id: u64,
    operation: DapOperation,
    older: u64,
    other_client: u64,
    other: DapOperation,
    generation: u64,
)
    requires
        state.is_current(client_id, operation, older) && older < u64::MAX,
        other_client != client_id || other != operation,
    ensures
        !state.begun(client_id, operation).is_current(client_id, operation, older),
        state.begun(client_id, operation).is_current(
            client_id,
            operation,
            state.next_generation(client_id, operation),
        ),
        state.begun(client_id, operation).is_current(other_client, other, generation)
            == state.is_current(other_client, other, generation),
{
    let key = OperationKey { client_id, operation };
    let other_key = OperationKey { client_id: other_client, operation: other };
    assert(key != other_key);
}

/// Why a program has stopped.
#[derive(Debug)]
pub struct StoppedBody {
    pub reason: String,
    pub description: Option<String>,
    pub thread_id: Option<i64>,
    pub text: Option<String>,
    pub all_threads_stopped: Option<bool>,
}

/// A text behind a blank, if there is one.
pub open spec fn behind_blank(text: Option<String>) -> Seq<char> {
    match text {
        Some(text) => seq![' '] + text@,
        None => seq![],
    }
}

/// How it is said that a program has stopped.
pub open spec fn stopped_text(body: StoppedBody, all_threads_stopped: bool) -> Seq<char> {
    (match body.thread_id {
        Some(id) => "Thread "@ + text::signed_decimal(id as int),
        None => "Target"@,
    }) + " stopped because of "@ + body.reason@ + behind_blank(body.description) + behind_blank(
        body.text,
    ) + (if all_threads_stopped {
        " (all threads stopped)"@
    } else {
        seq![]
    })
}

fn push_behind_blank(status: &mut String, text: &Option<String>)
    ensures
        final(status)@ == old(status)@ + behind_blank(*text),
{
    match text {
        Some(text) => {
            status.push(' ');
            status.append(text.as_str());
            assert(status@ =~= old(status)@ + behind_blank(Some(*text)));
        },
        None => {
            assert(status@ =~= old(status)@ + behind_blank(None));
        },
    }
}

/// How it is said that a program has stopped: what has stopped, why, and what the adapter adds.
pub fn stopped_status(body: &StoppedBody, all_threads_stopped: bool) -> (r: String)
    ensures
        r@ == stopped_text(*body, all_threads_stopped),
{
    let mut status = match body.thread_id {
        Some(id) => join("Thread ", signed_decimal_text(id).as_str()),
        None => "Target".to_owned(),
    };
    status.append(" stopped because of ");
    status.append(body.reason.as_str());
    push_behind_blank(&mut status, &body.description);
    push_behind_blank(&mut status, &body.text);
    let ghost before = status@;
    if all_threads_stopped {
        status.append(" (all threads stopped)");
    } else {
        assert(before + Seq::<char>::empty() =~= before);
    }
    status
}

/// What somebody is told.
#[derive(Debug)]
#[allow(inconsistent_fields)]
pub enum DapNote {
    Text(String),
    Stopped(StoppedBody),
    Thread { id: i64, reason: String },
    Output { category: Option<String>, output: String },
    FailedExit { code: i64 },
    Initialized,
    Starting,
    NoActiveDebugger,
    ChildNeedsTcp,
    NoConfiguration,
    NoTerminal,
    UnhandledRequest,
    StartFailed { child: bool, error: String },
    SessionFailed { error: String },
    ApplicationStarted,
    ConfigurationFailed { error: String },
    CannotDisconnect { error: String },
    Terminated,
    NoStartingRequest,
    Restarted,
    RestartFailed { error: String },
    NotRunning,
    FramesUnavailable { thread: i64 },
    FrameUnavailable { thread: i64, frame: usize },
    BreakpointFileGone,
    BreakpointGone,
    UpdatingBreakpoints,
}

impl DapNote {
    pub open spec fn spec_text(self) -> Seq<char> {
        match self {
            DapNote::Text(text) => text@,
            DapNote::Stopped(body) => stopped_text(body, body.all_threads_stopped == Some(true)),
            DapNote::Thread { id, reason } => "Thread "@ + text::signed_decimal(id as int) + ": "@
                + reason@,
            DapNote::Output { category: Some(category), output } => "Debug ("@ + category@ + "): "@
                + output@,
            DapNote::Output { category: None, output } => "Debug: "@ + output@,
            DapNote::FailedExit { code } => "Debuggee failed to exit successfully (exit code: "@
                + text::signed_decimal(code as int) + ")."@,
            DapNote::Initialized => "Debugger initialized..."@,
            DapNote::Starting => "Starting debugger..."@,
            DapNote::NoActiveDebugger => "No active debugger found."@,
            DapNote::ChildNeedsTcp =>
                "Child debugger can only be started if the parent debugger is using TCP transport."@,
            DapNote::NoConfiguration => "No configuration found for the debugger."@,
            DapNote::NoTerminal => "No external terminal defined"@,
            DapNote::UnhandledRequest => "Unhandled debugger request"@,
            DapNote::StartFailed { child, error } => if child {
                "Failed to create child debugger: "@ + error@
            } else {
                "Failed to start debug client: "@ + error@
            },
            DapNote::SessionFailed { error } => "Failed to start debugging session: "@ + error@,
            DapNote::ApplicationStarted => "Debugged application started"@,
            DapNote::ConfigurationFailed { error } => "Failed to finish debugger configuration: "@
                + error@,
            DapNote::CannotDisconnect { error } =>
                "Cannot disconnect debugger upon terminated event: "@ + error@,
            DapNote::Terminated => "Terminated debugging session and disconnected debugger."@,
            DapNote::NoStartingRequest =>
                "No starting request found, to be used in restarting the debugging session."@,
            DapNote::Restarted => "Debugging session restarted"@,
            DapNote::RestartFailed { error } => "Failed to restart debugging session: "@ + error@,
            DapNote::NotRunning => "Debugger is not running"@,
            DapNote::FramesUnavailable { thread } => "Stack frames for thread "@
                + text::signed_decimal(thread as int) + " are unavailable"@,
            DapNote::FrameUnavailable { thread, frame } => "Stack frame "@ + text::decimal(
                frame as nat,
            ) + " for thread "@ + text::signed_decimal(thread as int) + " is unavailable"@,
            DapNote::BreakpointFileGone => "Breakpoint file disappeared"@,
            DapNote::BreakpointGone => "Breakpoint disappeared"@,
            DapNote::UpdatingBreakpoints => "Updating breakpoints..."@,
        }
    }

    /// How it is worded.
    pub fn text(&self) -> (r: String)
        ensures
            r@ == self.spec_text(),
    {
        match self {
            DapNote::Text(text) => text.clone(),
            DapNote::Stopped(body) => {
                let all = match body.all_threads_stopped {
                    Some(all) => all,
                    None => false,
                };
                stopped_status(body, all)
            },
            DapNote::Thread { id, reason } => {
                let mut text = join("Thread ", signed_decimal_text(*id).as_str());
                text.append(": ");
                text.append(reason.as_str());
                text
            },
            DapNote::Output { category: Some(category), output } => {
                let mut text = join("Debug (", category.as_str());
                text.append("): ");
                text.append(output.as_str());
                text
            },
            DapNote::Output { category: None, output } => join("Debug: ", output.as_str()),
            DapNote::FailedExit { code } => {
                let mut text = join(
                    "Debuggee failed to exit successfully (exit code: ",
                    signed_decimal_text(*code).as_str(),
                );
                text.append(").");
                text
            },
            DapNote::Initialized => "Debugger initialized...".to_owned(),
            DapNote::Starting => "Starting debugger...".to_owned(),
            DapNote::NoActiveDebugger => "No active debugger found.".to_owned(),
            DapNote::ChildNeedsTcp =>
                "Child debugger can only be started if the parent debugger is using TCP transport.".to_owned(),
            DapNote::NoConfiguration => "No configuration found for the debugger.".to_owned(),
            DapNote::NoTerminal => "No external terminal defined".to_owned(),
            DapNote::UnhandledRequest => "Unhandled debugger request".to_owned(),
            DapNote::StartFailed { child, error } => if *child {
                join("Failed to create child debugger: ", error.as_str())
            } else {
                join("Failed to start debug client: ", error.as_str())
            },
            DapNote::SessionFailed { error } => join(
                "Failed to start debugging session: ",
                error.as_str(),
            ),
            DapNote::ApplicationStarted => "Debugged application started".to_owned(),
            DapNote::ConfigurationFailed { error } => join(
                "Failed to finish debugger configuration: ",
                error.as_str(),
            ),
            DapNote::CannotDisconnect { error } => join(
                "Cannot disconnect debugger upon terminated event: ",
                error.as_str(),
            ),
            DapNote::Terminated =>
                "Terminated debugging session and disconnected debugger.".to_owned(),
            DapNote::NoStartingRequest =>
                "No starting request found, to be used in restarting the debugging session.".to_owned(),
            DapNote::Restarted => "Debugging session restarted".to_owned(),
            DapNote::RestartFailed { error } => join(
                "Failed to restart debugging session: ",
                error.as_str(),
            ),
            DapNote::NotRunning => "Debugger is not running".to_owned(),
            DapNote::FramesUnavailable { thread } => {
                let mut text = join(
                    "Stack frames for thread ",
                    signed_decimal_text(*thread).as_str(),
                );
                text.append(" are unavailable");
                text
            },
            DapNote::FrameUnavailable { thread, frame } => {
                let mut text = join("Stack frame ", text::decimal_text(*frame as u64).as_str());
                text.append(" for thread ");
                text.append(signed_decimal_text(*thread).as_str());
                text.append(" is unavailable");
                text
            },
            DapNote::BreakpointFileGone => "Breakpoint file disappeared".to_owned(),
            DapNote::BreakpointGone => "Breakpoint disappeared".to_owned(),
            DapNote::UpdatingBreakpoints => "Updating breakpoints...".to_owned(),
        }
    }
}

/// How a program is taken under a debugger.
#[derive(Debug, Clone, Copy, PartialEq, Eq, Structural)]
pub enum ConnectionType {
    Launch,
    Attach,
}

/// A request of an adapter that wants a reply.
#[derive(Debug)]
pub struct ParentRequest {
    pub client_id: u64,
    pub sequence: u64,
    pub command: String,
}

/// How a program that has ended is to be started again. What is only handed on is a `P`.
#[derive(Debug)]
pub enum Restart<P> {
    Bool(bool),
    Arguments(P),
}

/// What a reply says.
#[derive(Debug)]
pub enum Reply<P> {
    Success,
    Value(P),
    Failure(DapNote),
}

/// What the editor does.
#[derive(Debug)]
#[allow(inconsistent_fields)]
pub enum DapAction<P> {
    SetStatus(DapNote),
    SetError(DapNote),
    /// The calls of one thread or of all are asked for.
    FetchStacks {
        client_id: u64,
        generation: u64,
        all_threads: bool,
        preferred_thread_id: Option<i64>,
    },
    FetchStack { client_id: u64, generation: u64, thread_id: i64 },
    /// The program runs on.
    ResumeApplication { client_id: u64 },
    ClearInlineValues,
    /// The adapter gets the breakpoints of all files, as `breakpoints_to_configure` lists them,
    /// and is told that this is all.
    Configure { client_id: u64, generation: u64 },
    Disconnect { client_id: u64, generation: u64, restart_requested: bool, restart: Option<Restart<P>> },
    RunInTerminal { parent: ParentRequest, arguments: P },
    StartChild { parent: ParentRequest, arguments: P },
    Reply { parent: ParentRequest, reply: Reply<P> },
    /// A client that did not come up is forgotten.
    CancelStart { client_id: u64 },
    StartSession { client_id: u64, connection: ConnectionType },
    SessionFailed { client_id: u64 },
    SessionStarted { client_id: u64 },
    Relaunch { client_id: u64, generation: u64, connection: ConnectionType, arguments: Restart<P> },
    /// The place of a call is shown.
    OpenFrame(StackFrame),
    ApplyBreakpoints { file: usize, response: P },
    /// The adapter gets these breakpoints for a file. They are what its answer is about, and
    /// `breakpoints_answered` says what becomes of that.
    SendBreakpoints { client_id: u64, path: Vec<String>, expected: Vec<Breakpoint> },
    Pause { client_id: u64, thread_id: i64 },
}

pub(crate) fn one_action<P>(action: DapAction<P>) -> (r: Vec<DapAction<P>>)
    ensures
        r@ == seq![action],
{
    let mut actions: Vec<DapAction<P>> = Vec::new();
    actions.push(action);
    assert(actions@ =~= seq![action]);
    actions
}

/// That all threads have stopped is said at the end and nowhere else; which thread has, at the
/// front.
pub proof fn law_stops_are_told_in_full(body: StoppedBody)
    ensures
        stopped_text(body, true) == stopped_text(body, false) + " (all threads stopped)"@,
        body.thread_id matches Some(id) ==> text::starts_with(
            stopped_text(body, false),
            "Thread "@ + text::signed_decimal(id as int) + " stopped because of "@ + body.reason@,
        ),
        body.thread_id is None ==> text::starts_with(
            stopped_text(body, false),
            "Target"@ + " stopped because of "@ + body.reason@,
        ),
        body.text matches Some(said) ==> text::ends_with(
            stopped_text(body, false),
            seq![' '] + said@,
        ),
{
    let head = match body.thread_id {
        Some(id) => "Thread "@ + text::signed_decimal(id as int),
        None => "Target"@,
    } + " stopped because of "@ + body.reason@;
    let all = stopped_text(body, false);
    assert(all =~= head + behind_blank(body.description) + behind_blank(body.text));
    assert(stopped_text(body, true) =~= all + " (all threads stopped)"@);
    assert(all.take(head.len() as int) =~= head);
    if body.text is Some {
        let said = seq![' '] + body.text->0@;
        assert(all.skip(all.len() - said.len()) =~= said);
    }
}

/// That all threads have stopped is said, behind all else, exactly if the adapter says so.
pub proof fn law_stops_of_all_threads_are_said(body: StoppedBody)
    ensures
        body.all_threads_stopped == Some(true) ==> text::ends_with(
            DapNote::Stopped(body).spec_text(),
            " (all threads stopped)"@,
        ),
        DapNote::Stopped(body).spec_text().len() == stopped_text(body, false).len() + (
        if body.all_threads_stopped == Some(true) {
            " (all threads stopped)"@.len()
        } else {
            0
        }),
{
    let told = DapNote::Stopped(body).spec_text();
    let tail = " (all threads stopped)"@;
    if body.all_threads_stopped == Some(true) {
        assert(told.skip(told.len() - tail.len()) =~= tail);
    }
}

} // verus!
