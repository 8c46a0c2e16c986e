//! What work on debugging sessions does once it has come back.

use vstd::prelude::*;

use crate::effect::dap::breakpoints;
use crate::effect::dap::breakpoints::Breakpoint;
use crate::effect::dap::completions;
use crate::effect::dap::completions::{
    apply_adapter_reply, apply_breakpoints_response, apply_client_startup_completed,
    apply_disconnect_completed, apply_initialized_completed, apply_relaunch_completed,
    apply_request_failed, apply_session_startup_completed, apply_stack_frames,
    apply_stopped_completed, ClientStartup, ConfiguredBreakpoints,
};
use crate::effect::dap::requests;
use crate::effect::dap::requests::{
    apply_breakpoint_change, apply_select_stack_frame, apply_toggle_breakpoint,
    request_pause_debug_thread, request_select_debug_thread, BreakpointChange,
};
use crate::effect::dap::{
    one_action, ConnectionType, DapAction, DapNote, DapOperation, DebugState, DebugView,
    ParentRequest, Restart, StackFrame,
};
use crate::paths;

verus! {

/// A step of a debugging session. What is only handed on is a `P`.
#[derive(Debug)]
#[allow(inconsistent_fields)]
pub enum DapTask<P> {
    ClientStartupCompleted(ClientStartup),
    SessionStartupCompleted {
        client_id: u64,
        /// Whether the session is still waited for.
        starting: bool,
        parent: Option<ParentRequest>,
        result: Result<(), String>,
    },
    StoppedCompleted {
        client_id: u64,
        generation: u64,
        preferred_thread_id: Option<i64>,
        stacks: Vec<(i64, Vec<StackFrame>)>,
    },
    InitializedCompleted {
        client_id: u64,
        generation: u64,
        breakpoints: Vec<ConfiguredBreakpoints<P>>,
        configuration_result: Result<(), String>,
    },
    DisconnectCompleted {
        client_id: u64,
        generation: u64,
        restart: Option<Restart<P>>,
        connection_type: Option<ConnectionType>,
        result: Result<(), String>,
    },
    RelaunchCompleted { client_id: u64, generation: u64, result: Result<(), String> },
    AdapterReplyReady { parent: ParentRequest, result: Result<P, String> },
    RequestFailed { client_id: u64, message: String },
    Restarted,
    /// The program that commands go to runs on.
    ResumeApplication,
    /// Commands go to no program.
    UnsetActiveClient,
    ExceptionsConfigured,
    SelectThread { thread_id: i64, replace: bool },
    PauseThread { thread_id: i64 },
    SelectStackFrame { thread_id: i64, frame_id: usize },
    ApplyStackFrames {
        client_id: u64,
        generation: u64,
        thread_id: i64,
        frames: Vec<StackFrame>,
        select_first: bool,
    },
    ApplyBreakpointsResponse {
        client_id: u64,
        path: Vec<String>,
        expected: Vec<Breakpoint>,
        response: P,
    },
    SetBreakpointCondition { path: Vec<String>, index: usize, condition: Option<String> },
    SetBreakpointLogMessage { path: Vec<String>, index: usize, log_message: Option<String> },
    ToggleBreakpoint { path: Vec<String>, line: usize },
}

/// What a program that runs on leaves to do: values shown beside the text are gone.
pub open spec fn resumed<P>(state: DebugView) -> Seq<DapAction<P>> {
    match state.active_client() {
        Some(client_id) => seq![
            DapAction::ResumeApplication { client_id },
            DapAction::ClearInlineValues,
        ],
        None => seq![DapAction::ClearInlineValues],
    }
}

/// The step leads from `before` to `after` and to these actions.
pub open spec fn task_done<P>(
    before: DebugView,
    task: DapTask<P>,
    after: DebugView,
    actions: Seq<DapAction<P>>,
) -> bool {
    match task {
        DapTask::ClientStartupCompleted(startup) => after == before && actions
            == completions::startup_actions::<P>(before, startup),
        DapTask::SessionStartupCompleted { client_id, starting, parent, result } => after == before
            && actions == completions::session_actions::<P>(
            before,
            client_id,
            starting,
            parent,
            result,
        ),
        DapTask::StoppedCompleted { client_id, generation, preferred_thread_id, stacks } => (
            after,
            actions,
        ) == completions::stopped_completed::<P>(
            before,
            client_id,
            generation,
            preferred_thread_id,
            stacks@,
        ),
        DapTask::InitializedCompleted {
            client_id,
            generation,
            breakpoints,
            configuration_result,
        } => (after, actions) == completions::configured(
            before,
            client_id,
            generation,
            breakpoints@,
            configuration_result,
        ),
        DapTask::DisconnectCompleted {
            client_id,
            generation,
            restart,
            connection_type,
            result,
        } => (after, actions) == completions::disconnected(
            before,
            client_id,
            generation,
            restart,
            connection_type,
            result,
        ),
        DapTask::RelaunchCompleted { client_id, generation, result } => after == before && actions
            == completions::relaunched::<P>(before, client_id, generation, result),
        DapTask::AdapterReplyReady { parent, result } => after == before && actions
            == completions::answered(before, parent, result),
        DapTask::RequestFailed { client_id, message } => after == before && actions
            == if before.has_client(client_id) {
            seq![DapAction::<P>::SetError(DapNote::Text(message))]
        } else {
            seq![]
        },
        DapTask::Restarted => after == before && actions == seq![
            DapAction::<P>::SetStatus(DapNote::Restarted),
        ],
        DapTask::ResumeApplication => after == before && actions == resumed::<P>(before),
        DapTask::UnsetActiveClient => after == (DebugView { active: None, ..before }) && actions
            == seq![DapAction::<P>::ClearInlineValues],
        DapTask::ExceptionsConfigured => after == before && actions.len() == 0,
        DapTask::SelectThread { thread_id, replace } => (after, actions)
            == requests::thread_selected::<P>(before, thread_id, replace),
        DapTask::PauseThread { thread_id } => after == before && actions == requests::pausing::<P>(
            before,
            thread_id,
        ),
        DapTask::SelectStackFrame { thread_id, frame_id } => (after, actions)
            == requests::frame_selected::<P>(before, thread_id, frame_id),
        DapTask::ApplyStackFrames { client_id, generation, thread_id, frames, select_first } => (
            after,
            actions,
        ) == completions::stack_frames_applied::<P>(
            before,
            client_id,
            generation,
            thread_id,
            frames,
            select_first,
        ),
        DapTask::ApplyBreakpointsResponse { client_id, path, expected, response } => after == before
            && actions == completions::response_actions(
            before,
            client_id,
            paths::parts(path@),
            expected@,
            response,
        ),
        DapTask::SetBreakpointCondition { path, index, condition } => requests::breakpoint_changed(
            before,
            paths::parts(path@),
            index,
            BreakpointChange::Condition(condition),
            after,
            actions,
        ),
        DapTask::SetBreakpointLogMessage { path, index, log_message } => {
            requests::breakpoint_changed(
                before,
                paths::parts(path@),
                index,
                BreakpointChange::LogMessage(log_message),
                after,
                actions,
            )
        },
        DapTask::ToggleBreakpoint { path, line } => after == requests::breakpoint_toggled(
            before,
            paths::parts(path@),
            line,
        ) && requests::breakpoints_sent(after, paths::parts(path@), actions),
    }
}

/// Takes in a step of a debugging session.
pub fn apply_dap_task<P>(state: &mut DebugState, task: DapTask<P>) -> (r: Vec<DapAction<P>>)
    requires
        old(state).wf(),
        task is SelectThread ==> (old(state)@.active_client() matches Some(client) ==> old(
            state,
        )@.has_room(client)),
    ensures
        final(state).wf(),
        task_done(old(state)@, task, final(state)@, r@),
{
    match task {
        DapTask::ClientStartupCompleted(startup) => apply_client_startup_completed(state, startup),
        DapTask::SessionStartupCompleted { client_id, starting, parent, result } => {
            apply_session_startup_completed(state, client_id, starting, parent, result)
        },
        DapTask::StoppedCompleted { client_id, generation, preferred_thread_id, stacks } => {
            apply_stopped_completed(state, client_id, generation, preferred_thread_id, stacks)
        },
        DapTask::InitializedCompleted {
            client_id,
            generation,
            breakpoints,
            configuration_result,
        } => apply_initialized_completed(
            state,
            client_id,
            generation,
            breakpoints,
            configuration_result,
        ),
        DapTask::DisconnectCompleted {
            client_id,
            generation,
            restart,
            connection_type,
            result,
        } => apply_disconnect_completed(
            state,
            client_id,
            generation,
            restart,
            connection_type,
            result,
        ),
        DapTask::RelaunchCompleted { client_id, generation, result } => apply_relaunch_completed(
            state,
            client_id,
            generation,
            result,
        ),
        DapTask::AdapterReplyReady { parent, result } => apply_adapter_reply(state, parent, result),
        DapTask::RequestFailed { client_id, message } => apply_request_failed(
            state,
            client_id,
            message,
        ),
        DapTask::Restarted => one_action(DapAction::SetStatus(DapNote::Restarted)),
        DapTask::ResumeApplication => apply_resume_debugger_application(state),
        DapTask::UnsetActiveClient => {
            state.active = None;
            one_action(DapAction::ClearInlineValues)
        },
        DapTask::ExceptionsConfigured => Vec::new(),
        DapTask::SelectThread { thread_id, replace } => request_select_debug_thread(
            state,
            thread_id,
            replace,
        ),
        DapTask::PauseThread { thread_id } => request_pause_debug_thread(state, thread_id),
        DapTask::SelectStackFrame { thread_id, frame_id } => apply_select_stack_frame(
            state,
            thread_id,
            frame_id,
        ),
        DapTask::ApplyStackFrames { client_id, generation, thread_id, frames, select_first } => {
            apply_stack_frames(state, client_id, generation, thread_id, frames, select_first)
        },
        DapTask::ApplyBreakpointsResponse { client_id, path, expected, response } => {
            apply_breakpoints_response(state, client_id, &path, &expected, response)
        },
        DapTask::SetBreakpointCondition { path, index, condition } => apply_breakpoint_change(
            state,
            &path,
            index,
            BreakpointChange::Condition(condition),
        ),
        DapTask::SetBreakpointLogMessage { path, index, log_message } => apply_breakpoint_change(
            state,
            &path,
            index,
            BreakpointChange::LogMessage(log_message),
        ),
        DapTask::ToggleBreakpoint { path, line } => apply_toggle_breakpoint(
            state,
            &path,
            line,
        ),
    }
}

/// The step answers a question that was put again since, or one to an adapter that is gone.
pub open spec fn outdated<P>(state: DebugView, task: DapTask<P>) -> bool {
    match task {
        DapTask::StoppedCompleted { client_id, generation, .. } => !completions::answer_counts(
            state,
            client_id,
            DapOperation::StackTrace,
            generation,
        ),
        DapTask::ApplyStackFrames { client_id, generation, .. } => !completions::answer_counts(
            state,
            client_id,
            DapOperation::StackTrace,
            generation,
        ),
        DapTask::InitializedCompleted { client_id, generation, .. } => !completions::answer_counts(
            state,
            client_id,
            DapOperation::Configuration,
            generation,
        ),
        DapTask::DisconnectCompleted { client_id, generation, .. } => !completions::answer_counts(
            state,
            client_id,
            DapOperation::Termination,
            generation,
        ),
        DapTask::RelaunchCompleted { client_id, generation, .. } => !completions::answer_counts(
            state,
            client_id,
            DapOperation::Termination,
            generation,
        ),
        _ => false,
    }
}

/// An outdated answer does nothing.
pub proof fn law_outdated_answers_do_nothing<P>(
    before: DebugView,
    task: DapTask<P>,
    after: DebugView,
    actions: Seq<DapAction<P>>,
)
    requires
        task_done(before, task, after, actions),
        outdated(before, task),
    ensures
        after == before,
        actions.len() == 0,
{
}

/// The program that commands go to runs on; no values are shown beside the text any more.
pub fn apply_resume_debugger_application<P>(state: &DebugState) -> (r: Vec<DapAction<P>>)
    requires
        state.wf(),
    ensures
        r@ == resumed::<P>(state@),
{
    let mut actions: Vec<DapAction<P>> = Vec::new();
    if let Some(client_id) = state.active_client() {
        actions.push(DapAction::ResumeApplication { client_id });
    }
    actions.push(DapAction::ClearInlineValues);
    assert(actions@ =~= resumed::<P>(state@));
    actions
}

/// Values beside the text go whenever a program runs on or no adapter is active any more; that an
/// adapter is no longer active changes nothing else.
pub proof fn law_values_go_when_a_program_runs_on<P>(
    before: DebugView,
    after: DebugView,
    actions: Seq<DapAction<P>>,
)
    ensures
        task_done(before, DapTask::<P>::ResumeApplication, after, actions) ==> after == before
            && actions.last() == DapAction::<P>::ClearInlineValues && (before.active is Some
            && before.clients.dom().contains(before.active->0) ==> actions[0]
            == (DapAction::<P>::ResumeApplication { client_id: before.active->0 })),
        task_done(before, DapTask::<P>::UnsetActiveClient, after, actions) ==> after.active is None
            && after.clients == before.clients && after.breakpoints == before.breakpoints
            && after.operations == before.operations && actions == seq![
            DapAction::<P>::ClearInlineValues,
        ],
{
}

/// When a program runs on the values beside its lines go, and whoever waits for it is told.
pub proof fn law_a_program_that_runs_on_is_resumed<P>(state: DebugView)
    ensures
        resumed::<P>(state).last() == DapAction::<P>::ClearInlineValues,
        state.active_client() is Some ==> resumed::<P>(state).len() == 2 && resumed::<P>(state)[0]
            == (DapAction::<P>::ResumeApplication { client_id: state.active_client()->0 }),
        state.active_client() is None ==> resumed::<P>(state).len() == 1,
{
}

/// A breakpoint that is set or taken away changes the list of its file and nothing else, and the
/// active adapter gets that list.
pub proof fn law_toggled_breakpoints_are_sent<P>(
    before: DebugView,
    path: Vec<String>,
    line: usize,
    after: DebugView,
    actions: Seq<DapAction<P>>,
)
    requires
        task_done(before, DapTask::<P>::ToggleBreakpoint { path, line }, after, actions),
    ensures
        after.clients == before.clients,
        after.operations == before.operations,
        after.active == before.active,
        breakpoints::listed(after.breakpoints, paths::parts(path@)) == breakpoints::toggled(
            breakpoints::listed(before.breakpoints, paths::parts(path@)),
            line,
        ),
        before.active_client() is None ==> actions.len() == 0,
        before.active_client() matches Some(client) ==> (
        actions.last() matches DapAction::SendBreakpoints { client_id, path: file, expected }
            && client_id == client && paths::parts(file@) == paths::parts(path@) && expected@
            == breakpoints::listed(after.breakpoints, paths::parts(path@))),
{
    breakpoints::lemma_listed_after(
        before.breakpoints,
        paths::parts(path@),
        |list: Seq<Breakpoint>| breakpoints::toggled(list, line),
    );
}

} // verus!
