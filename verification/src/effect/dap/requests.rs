//! What debug adapters ask for, and what people ask of them.

use vstd::prelude::*;

use crate::effect::dap;
use crate::effect::dap::breakpoints;
use crate::effect::dap::breakpoints::{breakpoints_in, find_file, toggle_breakpoint, Breakpoint};
use crate::effect::dap::completions;
use crate::effect::dap::completions::reply_to_adapter;
use crate::effect::dap::events;
use crate::effect::dap::events::{handle_event, DapEvent};
use crate::effect::dap::task::DapTask;
use crate::effect::dap::{
    one_action, DapAction, DapNote, DapOperation, DebugState, DebugView, DebuggerView,
    ParentRequest, Reply, StackFrame,
};
use crate::paths;
use crate::paths::copy_path;
use crate::text::join;

verus! {

/// What an adapter asks for. What is only handed on is a `P`.
#[derive(Debug)]
pub enum AdapterRequest<P> {
    RunInTerminal(P),
    /// Another program is to be debugged beside its own.
    StartDebugging(P),
    /// Nobody knows what this is.
    Unhandled,
    /// It could not be read.
    Invalid(String),
}

/// What the editor can do for adapters.
#[derive(Debug, Clone, Copy, PartialEq, Eq, Structural)]
pub struct Facilities {
    /// Whether programs can be run in a terminal.
    pub terminal: bool,
    /// Whether the adapter is connected by TCP.
    pub over_tcp: bool,
    /// Whether it is known how the adapter is started.
    pub configured: bool,
}

/// What a request of an adapter does.
pub open spec fn request_actions<P>(
    state: DebugView,
    facilities: Facilities,
    parent: ParentRequest,
    request: AdapterRequest<P>,
) -> Seq<DapAction<P>> {
    match request {
        AdapterRequest::RunInTerminal(arguments) => if facilities.terminal {
            seq![DapAction::RunInTerminal { parent, arguments }]
        } else {
            seq![DapAction::SetError(DapNote::NoTerminal)] + completions::reply_actions(
                state,
                parent,
                Reply::Failure(DapNote::NoTerminal),
            )
        },
        AdapterRequest::StartDebugging(arguments) => if !state.has_client(parent.client_id) {
            seq![DapAction::SetError(DapNote::NoActiveDebugger)]
        } else if !facilities.over_tcp {
            seq![
                DapAction::SetError(DapNote::ChildNeedsTcp),
                DapAction::Reply { parent, reply: Reply::Failure(DapNote::ChildNeedsTcp) },
            ]
        } else if !facilities.configured {
            seq![DapAction::Reply { parent, reply: Reply::Failure(DapNote::NoConfiguration) }]
        } else {
            seq![
                DapAction::SetStatus(DapNote::Starting),
                DapAction::StartChild { parent, arguments },
            ]
        },
        AdapterRequest::Unhandled => completions::reply_actions(
            state,
            parent,
            Reply::Failure(DapNote::UnhandledRequest),
        ),
        AdapterRequest::Invalid(error) => completions::reply_actions(
            state,
            parent,
            Reply::Failure(DapNote::Text(error)),
        ),
    }
}

/// Starts to debug another program beside that of an adapter.
pub fn start_child_debugger<P>(
    state: &DebugState,
    facilities: Facilities,
    parent: ParentRequest,
    arguments: P,
) -> (r: Vec<DapAction<P>>)
    requires
        state.wf(),
    ensures
        r@ == request_actions(
            state@,
            facilities,
            parent,
            AdapterRequest::StartDebugging(arguments),
        ),
{
    if !state.has_client(parent.client_id) {
        return one_action(DapAction::SetError(DapNote::NoActiveDebugger));
    }
    let mut actions: Vec<DapAction<P>> = Vec::new();
    if !facilities.over_tcp {
        actions.push(DapAction::SetError(DapNote::ChildNeedsTcp));
        actions.push(DapAction::Reply { parent, reply: Reply::Failure(DapNote::ChildNeedsTcp) });
    } else if !facilities.configured {
        actions.push(DapAction::Reply { parent, reply: Reply::Failure(DapNote::NoConfiguration) });
    } else {
        actions.push(DapAction::SetStatus(DapNote::Starting));
        actions.push(DapAction::StartChild { parent, arguments });
    }
    assert(actions@ =~= request_actions(
        state@,
        facilities,
        parent,
        AdapterRequest::StartDebugging(arguments),
    ));
    actions
}

/// Meets a request of an adapter, or replies why it is not met.
pub fn handle_adapter_request<P>(
    state: &DebugState,
    facilities: Facilities,
    parent: ParentRequest,
    request: AdapterRequest<P>,
) -> (r: Vec<DapAction<P>>)
    requires
        state.wf(),
    ensures
        r@ == request_actions(state@, facilities, parent, request),
{
    match request {
        AdapterRequest::RunInTerminal(arguments) => {
            if facilities.terminal {
                one_action(DapAction::RunInTerminal { parent, arguments })
            } else {
                let mut actions = one_action(DapAction::SetError(DapNote::NoTerminal));
                let mut reply = reply_to_adapter(
                    state,
                    parent,
                    Reply::Failure(DapNote::NoTerminal),
                );
                actions.append(&mut reply);
                actions
            }
        },
        AdapterRequest::StartDebugging(arguments) => start_child_debugger(
            state,
            facilities,
            parent,
            arguments,
        ),
        AdapterRequest::Unhandled => reply_to_adapter(
            state,
            parent,
            Reply::Failure(DapNote::UnhandledRequest),
        ),
        AdapterRequest::Invalid(error) => reply_to_adapter(
            state,
            parent,
            Reply::Failure(DapNote::Text(error)),
        ),
    }
}

/// A message of an adapter.
#[derive(Debug)]
#[allow(inconsistent_fields)]
pub enum ServerMessage<P> {
    /// A report, if it could be read.
    Event(Option<DapEvent<P>>),
    Request { parent: ParentRequest, request: AdapterRequest<P> },
    UnexpectedResponse,
}

/// What a message does.
pub open spec fn message_outcome<P>(
    state: DebugView,
    facilities: Facilities,
    client_id: u64,
    message: ServerMessage<P>,
) -> events::EventOutcome<P> {
    match message {
        ServerMessage::Event(Some(event)) => events::event_outcome(state, client_id, event),
        ServerMessage::Request { parent, request } => events::EventOutcome {
            state,
            handled: true,
            actions: request_actions(state, facilities, parent, request),
        },
        _ => events::EventOutcome { state, handled: false, actions: seq![] },
    }
}

/// Takes in a message of an adapter. Reports that cannot be read and answers that nobody asked
/// for are passed over; requests always get a reply while the adapter is there.
pub fn handle_message<P>(
    state: &mut DebugState,
    facilities: Facilities,
    client_id: u64,
    message: ServerMessage<P>,
) -> (r: (bool, Vec<DapAction<P>>))
    requires
        old(state).wf(),
        old(state)@.has_room(client_id),
    ensures
        final(state).wf(),
        ({
            let after = message_outcome(old(state)@, facilities, client_id, message);
            final(state)@ == after.state && r.0 == after.handled && r.1@ == after.actions
        }),
{
    match message {
        ServerMessage::Event(Some(event)) => handle_event(state, client_id, event),
        ServerMessage::Request { parent, request } => (
            true,
            handle_adapter_request(state, facilities, parent, request),
        ),
        _ => {
            let actions: Vec<DapAction<P>> = Vec::new();
            assert(actions@ =~= Seq::<DapAction<P>>::empty());
            (false, actions)
        },
    }
}

/// Looking at another thread, or at one if none was looked at.
pub open spec fn thread_selected<P>(state: DebugView, thread_id: i64, replace: bool) -> (
    DebugView,
    Seq<DapAction<P>>,
) {
    match state.active_client() {
        None => (state, seq![DapAction::SetError(DapNote::NotRunning)]),
        Some(client_id) => {
            let before = state.clients[client_id];
            if !replace && before.thread_id is Some {
                (state, seq![])
            } else {
                (
                    state.begun(client_id, DapOperation::StackTrace).with_client(
                        client_id,
                        DebuggerView { thread_id: Some(thread_id), ..before },
                    ),
                    seq![
                        DapAction::FetchStack {
                            client_id,
                            generation: state.next_generation(client_id, DapOperation::StackTrace),
                            thread_id,
                        },
                    ],
                )
            }
        },
    }
}

/// Looks at a thread; unless it replaces the one looked at, only where none is.
pub fn request_select_debug_thread<P>(state: &mut DebugState, thread_id: i64, replace: bool) -> (r: Vec<
    DapAction<P>,
>)
    requires
        old(state).wf(),
        old(state)@.active_client() matches Some(client) ==> old(state)@.has_room(client),
    ensures
        final(state).wf(),
        ({
            let after = thread_selected::<P>(old(state)@, thread_id, replace);
            final(state)@ == after.0 && r@ == after.1
        }),
{
    let ghost before = state@;
    let client_id = match state.active_client() {
        Some(id) => id,
        None => {
            return one_action(DapAction::SetError(DapNote::NotRunning));
        },
    };
    assert(before.can_begin(client_id, DapOperation::StackTrace));
    let ghost clients = state.clients@;
    if !replace {
        if let Some(debugger) = state.clients.get(client_id) {
            if debugger.thread_id.is_some() {
                return Vec::new();
            }
        }
    }
    let generation = state.begin_operation(client_id, DapOperation::StackTrace);
    if let Some(debugger) = state.clients.get_mut(client_id) {
        debugger.thread_id = Some(thread_id);
    }
    proof {
        dap::lemma_client_views_insert(clients, client_id, state.clients@[client_id]);
        assert(state.clients@ =~= clients.insert(client_id, state.clients@[client_id]));
    }
    one_action(DapAction::FetchStack { client_id, generation, thread_id })
}

/// The program that commands go to is to pause a thread.
pub open spec fn pausing<P>(state: DebugView, thread_id: i64) -> Seq<DapAction<P>> {
    match state.active_client() {
        Some(client_id) => seq![DapAction::Pause { client_id, thread_id }],
        None => seq![],
    }
}

/// Has a thread of the program that commands go to pause.
pub fn request_pause_debug_thread<P>(state: &DebugState, thread_id: i64) -> (r: Vec<DapAction<P>>)
    requires
        state.wf(),
    ensures
        r@ == pausing::<P>(state@, thread_id),
{
    match state.active_client() {
        Some(client_id) => one_action(DapAction::Pause { client_id, thread_id }),
        None => Vec::new(),
    }
}

/// Where the call with an id is.
pub open spec fn frame_index(frames: Seq<StackFrame>, id: usize) -> Option<int>
    decreases frames.len(),
{
    if frames.len() == 0 {
        None
    } else if frames[0].id == id {
        Some(0int)
    } else {
        match frame_index(frames.drop_first(), id) {
            Some(i) => Some(i + 1),
            None => None,
        }
    }
}

fn find_frame(frames: &Vec<StackFrame>, id: usize) -> (r: Option<usize>)
    ensures
        match r {
            Some(i) => i < frames@.len() && frame_index(frames@, id) == Some(i as int),
            None => frame_index(frames@, id) is None,
        },
{
    let mut i: usize = 0;
    assert(frames@.skip(0) =~= frames@);
    while i < frames.len()
        invariant
            i <= frames@.len(),
            match frame_index(frames@.skip(i as int), id) {
                Some(k) => frame_index(frames@, id) == Some(k + i),
                None => frame_index(frames@, id) is None,
            },
        decreases frames@.len() - i,
    {
        assert(frames@.skip(i as int).drop_first() =~= frames@.skip(i + 1));
        if frames[i].id == id {
            return Some(i);
        }
        i += 1;
    }
    None
}

/// Looking at another call of a thread, whose place is shown.
pub open spec fn frame_selected<P>(state: DebugView, thread_id: i64, frame_id: usize) -> (
    DebugView,
    Seq<DapAction<P>>,
) {
    match state.active_client() {
        None => (state, seq![]),
        Some(client_id) => {
            let before = state.clients[client_id];
            if !before.stack_frames.dom().contains(thread_id) {
                (
                    state,
                    seq![DapAction::SetError(DapNote::FramesUnavailable { thread: thread_id })],
                )
            } else {
                let frames = before.stack_frames[thread_id]@;
                match frame_index(frames, frame_id) {
                    None => (
                        state,
                        seq![
                            DapAction::SetError(
                                DapNote::FrameUnavailable { thread: thread_id, frame: frame_id },
                            ),
                        ],
                    ),
                    Some(i) => (
                        state.with_client(
                            client_id,
                            DebuggerView { active_frame: Some(i as usize), ..before },
                        ),
                        if frames[i].path is Some {
                            seq![DapAction::OpenFrame(frames[i])]
                        } else {
                            seq![]
                        },
                    ),
                }
            }
        },
    }
}

/// Looks at a call of a thread.
pub fn apply_select_stack_frame<P>(state: &mut DebugState, thread_id: i64, frame_id: usize) -> (r: Vec<
    DapAction<P>,
>)
    requires
        old(state).wf(),
    ensures
        final(state).wf(),
        ({
            let after = frame_selected::<P>(old(state)@, thread_id, frame_id);
            final(state)@ == after.0 && r@ == after.1
        }),
{
    let client_id = match state.active_client() {
        Some(id) => id,
        None => {
            return Vec::new();
        },
    };
    let ghost clients = state.clients@;
    let (position, frame): (usize, StackFrame) = match state.clients.get(client_id) {
        Some(debugger) => match debugger.stack_frames.get(thread_id) {
            Some(frames) => match find_frame(frames, frame_id) {
                Some(i) => (i, frames[i].copy()),
                None => {
                    return one_action(
                        DapAction::SetError(
                            DapNote::FrameUnavailable { thread: thread_id, frame: frame_id },
                        ),
                    );
                },
            },
            None => {
                return one_action(
                    DapAction::SetError(DapNote::FramesUnavailable { thread: thread_id }),
                );
            },
        },
        None => {
            return Vec::new();
        },
    };
    if let Some(debugger) = state.clients.get_mut(client_id) {
        debugger.active_frame = Some(position);
    }
    proof {
        dap::lemma_client_views_insert(clients, client_id, state.clients@[client_id]);
        assert(state.clients@ =~= clients.insert(client_id, state.clients@[client_id]));
    }
    if frame.path.is_some() {
        one_action(DapAction::OpenFrame(frame))
    } else {
        Vec::new()
    }
}

/// The adapter that commands go to gets the breakpoints of a file anew.
pub open spec fn breakpoints_sent<P>(
    state: DebugView,
    path: Seq<Seq<char>>,
    actions: Seq<DapAction<P>>,
) -> bool {
    match state.active_client() {
        None => actions.len() == 0,
        Some(client) => {
            &&& actions.len() == 2
            &&& actions[0] == DapAction::<P>::SetStatus(DapNote::UpdatingBreakpoints)
            &&& actions[1] matches DapAction::SendBreakpoints { client_id, path: file, expected }
                && client_id == client && paths::parts(file@) == path && expected@ == breakpoints::listed(
                state.breakpoints,
                path,
            )
        },
    }
}

fn queue_breakpoints_changed<P>(state: &DebugState, path: &Vec<String>) -> (r: Vec<DapAction<P>>)
    requires
        state.wf(),
    ensures
        breakpoints_sent(state@, paths::parts(path@), r@),
{
    let mut actions: Vec<DapAction<P>> = Vec::new();
    if let Some(client_id) = state.active_client() {
        actions.push(DapAction::SetStatus(DapNote::UpdatingBreakpoints));
        let expected = breakpoints_in(&state.breakpoints, path);
        actions.push(DapAction::SendBreakpoints { client_id, path: copy_path(path), expected });
    }
    actions
}

/// What becomes of an adapter's answer to the breakpoints of a file: a failure is told.
pub fn breakpoints_answered<P>(
    client_id: u64,
    path: Vec<String>,
    expected: Vec<Breakpoint>,
    answer: Result<P, String>,
) -> (r: DapTask<P>)
    ensures
        match answer {
            Ok(response) => r == (DapTask::ApplyBreakpointsResponse {
                client_id,
                path,
                expected,
                response,
            }),
            Err(error) => r matches DapTask::RequestFailed { client_id: failed, message } && failed
                == client_id && message@ == "Failed to set breakpoints: "@ + error@,
        },
{
    match answer {
        Ok(response) => DapTask::ApplyBreakpointsResponse { client_id, path, expected, response },
        Err(error) => DapTask::RequestFailed {
            client_id,
            message: join("Failed to set breakpoints: ", error.as_str()),
        },
    }
}

/// What somebody changes about a breakpoint.
#[derive(Debug)]
pub enum BreakpointChange {
    /// It stops only if this holds.
    Condition(Option<String>),
    /// It only writes this.
    LogMessage(Option<String>),
}

pub open spec fn changed_by_hand(breakpoint: Breakpoint, change: BreakpointChange) -> Breakpoint {
    match change {
        BreakpointChange::Condition(condition) => Breakpoint { condition, ..breakpoint },
        BreakpointChange::LogMessage(log_message) => Breakpoint { log_message, ..breakpoint },
    }
}

/// A breakpoint of a file is changed by hand, and the adapter gets to know.
pub open spec fn breakpoint_changed<P>(
    before: DebugView,
    path: Seq<Seq<char>>,
    index: usize,
    change: BreakpointChange,
    after: DebugView,
    actions: Seq<DapAction<P>>,
) -> bool {
    match breakpoints::file_index(before.breakpoints, path) {
        None => after == before && actions == seq![
            DapAction::<P>::SetError(DapNote::BreakpointFileGone),
        ],
        Some(i) => {
            let list = before.breakpoints[i].breakpoints;
            if index >= list.len() {
                after == before && actions == seq![
                    DapAction::<P>::SetError(DapNote::BreakpointGone),
                ]
            } else {
                &&& after == (DebugView {
                    breakpoints: before.breakpoints.update(
                        i,
                        breakpoints::FileView {
                            path: before.breakpoints[i].path,
                            breakpoints: list.update(
                                index as int,
                                changed_by_hand(list[index as int], change),
                            ),
                        },
                    ),
                    ..before
                })
                &&& breakpoints_sent(after, path, actions)
            }
        },
    }
}

/// Changes a breakpoint of a file, and the adapter gets to know.
pub fn apply_breakpoint_change<P>(
    state: &mut DebugState,
    path: &Vec<String>,
    index: usize,
    change: BreakpointChange,
) -> (r: Vec<DapAction<P>>)
    requires
        old(state).wf(),
    ensures
        final(state).wf(),
        breakpoint_changed(old(state)@, paths::parts(path@), index, change, final(state)@, r@),
{
    let ghost before = state@;
    let ghost files = state.breakpoints@;
    proof {
        breakpoints::lemma_file_index(before.breakpoints, paths::parts(path@));
    }
    let file: usize = match find_file(&state.breakpoints, path) {
        Some(file) => file,
        None => {
            return one_action(DapAction::SetError(DapNote::BreakpointFileGone));
        },
    };
    assert(before.breakpoints[file as int].breakpoints == files[file as int].breakpoints@);
    if index >= state.breakpoints[file].breakpoints.len() {
        return one_action(DapAction::SetError(DapNote::BreakpointGone));
    }
    {
        let entry = &mut state.breakpoints[file];
        let breakpoint = &mut entry.breakpoints[index];
        match change {
            BreakpointChange::Condition(condition) => {
                breakpoint.condition = condition;
            },
            BreakpointChange::LogMessage(log_message) => {
                breakpoint.log_message = log_message;
            },
        }
    }
    assert(state@.breakpoints =~= before.breakpoints.update(
        file as int,
        breakpoints::FileView {
            path: before.breakpoints[file as int].path,
            breakpoints: files[file as int].breakpoints@.update(
                index as int,
                changed_by_hand(files[file as int].breakpoints@[index as int], change),
            ),
        },
    ));
    queue_breakpoints_changed(state, path)
}

/// A breakpoint was set on a line, or taken away.
pub open spec fn breakpoint_toggled(state: DebugView, path: Seq<Seq<char>>, line: usize) -> DebugView {
    DebugView {
        breakpoints: breakpoints::with_breakpoints(
            state.breakpoints,
            path,
            |list: Seq<Breakpoint>| breakpoints::toggled(list, line),
        ),
        ..state
    }
}

/// Sets a breakpoint on a line or takes it away, and the adapter gets to know.
pub fn apply_toggle_breakpoint<P>(
    state: &mut DebugState,
    path: &Vec<String>,
    line: usize,
) -> (r: Vec<DapAction<P>>)
    requires
        old(state).wf(),
    ensures
        final(state).wf(),
        final(state)@ == breakpoint_toggled(old(state)@, paths::parts(path@), line),
        breakpoints_sent(final(state)@, paths::parts(path@), r@),
{
    toggle_breakpoint(&mut state.breakpoints, path, line);
    queue_breakpoints_changed(state, path)
}

/// The call with an id is the first of the thread that has it.
pub proof fn law_the_first_call_with_an_id_is_found(frames: Seq<StackFrame>, id: usize)
    ensures
        match frame_index(frames, id) {
            Some(i) => 0 <= i < frames.len() && frames[i].id == id && forall|j: int|
                0 <= j < i ==> (#[trigger] frames[j]).id != id,
            None => forall|i: int| 0 <= i < frames.len() ==> (#[trigger] frames[i]).id != id,
        },
    decreases frames.len(),
{
    if frames.len() > 0 {
        let rest = frames.drop_first();
        law_the_first_call_with_an_id_is_found(rest, id);
        assert forall|i: int| 0 < i < frames.len() implies #[trigger] frames[i] == rest[i - 1] by {}
    }
}

/// Choosing a thread makes it the one that is looked at and asks for its calls, under the number
/// that counts from then on; without replacing, a thread that is looked at stays.
pub proof fn law_chosen_threads_are_looked_at<P>(
    state: DebugView,
    client_id: u64,
    thread_id: i64,
    replace: bool,
)
    requires
        state.active == Some(client_id),
        state.clients.dom().contains(client_id),
    ensures
        ({
            let (after, actions) = thread_selected::<P>(state, thread_id, replace);
            if !replace && state.clients[client_id].thread_id is Some {
                after == state && actions.len() == 0
            } else {
                let key = dap::OperationKey { client_id, operation: DapOperation::StackTrace };
                &&& after.clients[client_id].thread_id == Some(thread_id)
                &&& after.operations.dom().contains(key)
                &&& actions == seq![
                    DapAction::<P>::FetchStack {
                        client_id,
                        generation: after.operations[key],
                        thread_id,
                    },
                ]
                &&& after.clients[client_id].stack_frames == state.clients[client_id].stack_frames
                &&& after.active == state.active && after.breakpoints == state.breakpoints
            }
        }),
{
}

/// Choosing a call looks at it and shows its place, if that is known; the thread and its calls
/// stay. What is not there is told.
pub proof fn law_chosen_calls_are_shown<P>(
    state: DebugView,
    client_id: u64,
    thread_id: i64,
    i: int,
)
    requires
        state.active == Some(client_id),
        state.clients.dom().contains(client_id),
        state.clients[client_id].stack_frames.dom().contains(thread_id),
        0 <= i < state.clients[client_id].stack_frames[thread_id]@.len() <= usize::MAX,
        forall|j: int|
            0 <= j < i ==> (#[trigger] state.clients[client_id].stack_frames[thread_id]@[j]).id
                != state.clients[client_id].stack_frames[thread_id]@[i].id,
    ensures
        ({
            let frames = state.clients[client_id].stack_frames[thread_id]@;
            let (after, actions) = frame_selected::<P>(state, thread_id, frames[i].id);
            &&& after.clients[client_id].active_frame == Some(i as usize)
            &&& after.clients[client_id].thread_id == state.clients[client_id].thread_id
            &&& after.clients[client_id].stack_frames == state.clients[client_id].stack_frames
            &&& frames[i].path is Some ==> actions == seq![DapAction::<P>::OpenFrame(frames[i])]
            &&& frames[i].path is None ==> actions.len() == 0
        }),
{
    let frames = state.clients[client_id].stack_frames[thread_id]@;
    law_the_first_call_with_an_id_is_found(frames, frames[i].id);
}

/// A change by hand concerns the one breakpoint and the one thing that is changed about it, and
/// the adapter gets the breakpoints of the file as they are then.
pub proof fn law_changes_concern_one_breakpoint<P>(
    before: DebugView,
    file: int,
    index: usize,
    condition: Option<String>,
    after: DebugView,
    actions: Seq<DapAction<P>>,
    other: int,
)
    requires
        0 <= file < before.breakpoints.len(),
        forall|i: int|
            0 <= i < before.breakpoints.len() && i != file
                ==> (#[trigger] before.breakpoints[i]).path != before.breakpoints[file].path,
        index < before.breakpoints[file].breakpoints.len(),
        0 <= other < before.breakpoints[file].breakpoints.len(),
        other != index,
        breakpoint_changed(
            before,
            before.breakpoints[file].path,
            index,
            BreakpointChange::Condition(condition),
            after,
            actions,
        ),
    ensures
        ({
            let was = before.breakpoints[file].breakpoints;
            let now = after.breakpoints[file].breakpoints;
            &&& after.breakpoints.len() == before.breakpoints.len()
            &&& now.len() == was.len()
            &&& now[index as int].condition == condition
            &&& (Breakpoint { condition: was[index as int].condition, ..now[index as int] })
                == was[index as int]
            &&& now[other] == was[other]
            &&& after.clients == before.clients && after.operations == before.operations
            &&& before.active_client() is None ==> actions.len() == 0
            &&& before.active_client() matches Some(client) ==> actions.len() == 2 && (
            actions[1] matches DapAction::SendBreakpoints { client_id, expected, .. } && client_id
                == client && expected@ == now)
        }),
{
    let path = before.breakpoints[file].path;
    breakpoints::lemma_file_index(before.breakpoints, path);
    assert(breakpoints::file_index(before.breakpoints, path) == Some(file));
    breakpoints::lemma_file_index(after.breakpoints, path);
    assert forall|i: int| 0 <= i < after.breakpoints.len() && i != file implies (
    #[trigger] after.breakpoints[i]).path != path by {
        assert(after.breakpoints[i] == before.breakpoints[i]);
    }
    assert(after.breakpoints[file].path == path);
    assert(breakpoints::file_index(after.breakpoints, path) == Some(file));
}

/// A request is never left without a word: while the adapter is there it gets a reply, or what it
/// asked for is begun.
pub proof fn law_requests_get_a_word<P>(
    state: DebugView,
    facilities: Facilities,
    parent: ParentRequest,
    request: AdapterRequest<P>,
)
    requires
        state.clients.dom().contains(parent.client_id),
    ensures
        ({
            let actions = request_actions(state, facilities, parent, request);
            &&& actions.len() > 0
            &&& actions.last() is Reply || actions.last() is RunInTerminal
                || actions.last() is StartChild
            &&& actions.last() is RunInTerminal <==> request is RunInTerminal && facilities.terminal
            &&& actions.last() is StartChild <==> request is StartDebugging && facilities.over_tcp
                && facilities.configured
        }),
{
    let actions = request_actions(state, facilities, parent, request);
}

/// What an adapter asks for is always met and leaves the state alone; what cannot be read does
/// nothing.
pub proof fn law_messages_that_cannot_be_read_do_nothing<P>(
    state: DebugView,
    facilities: Facilities,
    client_id: u64,
    message: ServerMessage<P>,
)
    ensures
        ({
            let outcome = message_outcome(state, facilities, client_id, message);
            &&& message is Request ==> outcome.handled && outcome.state == state
            &&& (message matches ServerMessage::Request { parent, request } ==> outcome.actions
                == request_actions(state, facilities, parent, request))
            &&& (message matches ServerMessage::Event(Some(event)) ==> outcome
                == events::event_outcome(state, client_id, event))
            &&& (message matches ServerMessage::Event(None) ==> !outcome.handled && outcome.state
                == state && outcome.actions.len() == 0)
        }),
{
}

/// A program is paused through the adapter that is active, and through no other.
pub proof fn law_the_active_adapter_pauses<P>(state: DebugView, thread_id: i64)
    ensures
        state.active_client() is None ==> pausing::<P>(state, thread_id).len() == 0,
        state.active_client() is Some ==> pausing::<P>(state, thread_id) == seq![
            DapAction::<P>::Pause { client_id: state.active_client()->0, thread_id },
        ],
{
}

/// A changed message of one breakpoint concerns that breakpoint and no other, and nothing else of
/// it.
pub proof fn law_messages_of_one_breakpoint_change<P>(
    before: DebugView,
    file: int,
    index: usize,
    log_message: Option<String>,
    after: DebugView,
    actions: Seq<DapAction<P>>,
    other: int,
)
    requires
        0 <= file < before.breakpoints.len(),
        forall|i: int|
            0 <= i < before.breakpoints.len() && i != file
                ==> (#[trigger] before.breakpoints[i]).path != before.breakpoints[file].path,
        index < before.breakpoints[file].breakpoints.len(),
        0 <= other < before.breakpoints[file].breakpoints.len(),
        other != index,
        breakpoint_changed(
            before,
            before.breakpoints[file].path,
            index,
            BreakpointChange::LogMessage(log_message),
            after,
            actions,
        ),
    ensures
        ({
            let was = before.breakpoints[file].breakpoints;
            let now = after.breakpoints[file].breakpoints;
            &&& now.len() == was.len()
            &&& now[index as int].log_message == log_message
            &&& (Breakpoint { log_message: was[index as int].log_message, ..now[index as int] })
                == was[index as int]
            &&& now[other] == was[other]
        }),
{
    let path = before.breakpoints[file].path;
    breakpoints::lemma_file_index(before.breakpoints, path);
    assert(breakpoints::file_index(before.breakpoints, path) == Some(file));
}

/// That a breakpoint to be changed is gone is told, and nothing changes.
pub proof fn law_breakpoints_that_are_gone_are_told<P>(
    before: DebugView,
    path: Seq<Seq<char>>,
    index: usize,
    change: BreakpointChange,
    after: DebugView,
    actions: Seq<DapAction<P>>,
)
    requires
        breakpoint_changed(before, path, index, change, after, actions),
        forall|i: int|
            0 <= i < before.breakpoints.len() ==> (#[trigger] before.breakpoints[i]).path != path
                || before.breakpoints[i].breakpoints.len() <= index,
    ensures
        after == before,
        actions.len() == 1,
        actions[0] is SetError,
        (forall|i: int|
            0 <= i < before.breakpoints.len() ==> (#[trigger] before.breakpoints[i]).path != path)
            ==> actions[0] == DapAction::<P>::SetError(DapNote::BreakpointFileGone),
{
    breakpoints::lemma_file_index(before.breakpoints, path);
}

} // verus!
