use helix_term::collections::IdMap;
use helix_term::effect::dap::breakpoints::{
    breakpoint_reason, toggle_breakpoint, unverify_all, AdapterBreakpoint, Breakpoint,
    BreakpointReason,
};
use helix_term::effect::dap::completions::{
    apply_adapter_reply, apply_breakpoints_response, apply_client_startup_completed,
    apply_disconnect_completed, apply_initialized_completed, apply_relaunch_completed,
    apply_request_failed, apply_session_startup_completed, apply_stack_frames,
    apply_stopped_completed, ClientStartup, ConfiguredBreakpoints,
};
use helix_term::effect::dap::events::{
    breakpoints_to_configure, handle_event, part_stacks, DapEvent,
};
use helix_term::effect::dap::requests::{
    apply_breakpoint_change, apply_select_stack_frame, apply_toggle_breakpoint,
    breakpoints_answered, handle_message, request_pause_debug_thread, request_select_debug_thread, AdapterRequest, BreakpointChange,
    Facilities, ServerMessage,
};
use helix_term::effect::dap::task::{apply_dap_task, DapTask};
use helix_term::effect::dap::{
    stopped_status, ConnectionType, DapAction, DapNote, DapOperation, DebugState, Debugger,
    ParentRequest, Reply, Restart, StackFrame, StoppedBody,
};

type Actions = Vec<DapAction<&'static str>>;

/// The components of a path.
fn path(text: &str) -> Vec<String> {
    std::path::Path::new(text)
        .components()
        .map(|part| part.as_os_str().to_str().unwrap().to_string())
        .collect()
}

fn state() -> DebugState {
    let mut clients = IdMap::new();
    clients.insert(7, Debugger::new());
    DebugState { clients, active: Some(7), operations: IdMap::new(), breakpoints: Vec::new() }
}

fn frame(id: usize) -> StackFrame {
    StackFrame {
        id,
        path: Some("/src/a.rs".to_string()),
        line: 3,
        column: 1,
        end_line: None,
        end_column: None,
    }
}

fn stopped() -> StoppedBody {
    StoppedBody {
        reason: "breakpoint".to_string(),
        description: Some("paused".to_string()),
        thread_id: Some(7),
        text: Some("at main".to_string()),
        all_threads_stopped: Some(true),
    }
}

#[test]
fn stopped_status_preserves_adapter_context() {
    assert_eq!(
        stopped_status(&stopped(), true),
        "Thread 7 stopped because of breakpoint paused at main (all threads stopped)"
    );
    let target = StoppedBody {
        reason: "pause".to_string(),
        description: None,
        thread_id: None,
        text: None,
        all_threads_stopped: None,
    };
    assert_eq!(stopped_status(&target, false), "Target stopped because of pause");
}

#[test]
fn stopping_asks_for_the_stacks() {
    let mut state = state();
    let (handled, actions): (bool, Actions) =
        handle_event(&mut state, 7, DapEvent::Stopped(stopped()));
    assert!(handled);
    match &actions[..] {
        [DapAction::FetchStacks { client_id: 7, generation: 1, all_threads: true, preferred_thread_id: Some(7) }, DapAction::SetStatus(note)] => {
            assert!(note.text().starts_with("Thread 7 stopped"))
        }
        other => panic!("{:?}", other),
    }
    let stacks = vec![(7, vec![frame(1), frame(2)])];
    let actions: Actions = apply_stopped_completed(&mut state, 7, 1, Some(7), stacks);
    assert!(actions.iter().any(|action| matches!(action, DapAction::OpenFrame(_))));
    assert_eq!(state.clients.get(7).unwrap().thread_id, Some(7));

    // The program runs on, so older stacks no longer count.
    let (_, actions): (bool, Actions) =
        handle_event(&mut state, 7, DapEvent::Continued { thread_id: 7 });
    assert!(matches!(
        actions[..],
        [DapAction::ResumeApplication { client_id: 7 }, DapAction::ClearInlineValues]
    ));
    assert!(!state.is_current_operation(7, DapOperation::StackTrace, 1));
    let late: Actions = apply_stack_frames(&mut state, 7, 1, 7, vec![frame(3)], true);
    assert!(late.is_empty());
}

#[test]
fn events_of_unknown_adapters_are_not_handled() {
    let mut state = state();
    let (handled, actions): (bool, Actions) =
        handle_event(&mut state, 8, DapEvent::Stopped(stopped()));
    assert!(!handled);
    assert!(actions.is_empty());
    let telemetry =
        DapEvent::Output { category: Some("telemetry".to_string()), output: "x".to_string() };
    let (handled, _): (bool, Actions) = handle_event(&mut state, 7, telemetry);
    assert!(!handled);
    let (handled, actions): (bool, Actions) =
        handle_event(&mut state, 7, DapEvent::Exited { exit_code: 3 });
    assert!(handled);
    assert!(matches!(actions[..], [DapAction::SetError(DapNote::FailedExit { code: 3 })]));
}

#[test]
fn adapters_are_configured_and_let_go() {
    let mut state = state();
    let (_, actions): (bool, Actions) = handle_event(&mut state, 7, DapEvent::Initialized);
    assert!(matches!(
        actions[..],
        [
            DapAction::SetStatus(DapNote::Initialized),
            DapAction::Configure { client_id: 7, generation: 1 }
        ]
    ));
    toggle_breakpoint(&mut state.breakpoints, &path("/src/a.rs"), 4);
    let file = |name: &str, result| ConfiguredBreakpoints {
        path: path(name),
        expected: vec![Breakpoint {
            id: None,
            verified: false,
            message: None,
            line: 4,
            column: None,
            condition: None,
            log_message: None,
        }],
        result,
    };
    let files = vec![
        file("/src/b.rs", Ok("b")),
        file("/src/a.rs", Err("refused".to_string())),
        file("/src/a.rs", Ok("a")),
    ];
    let actions: Actions = apply_initialized_completed(&mut state, 7, 1, files, Ok(()));
    assert!(matches!(
        actions[..],
        [
            DapAction::ApplyBreakpoints { file: 0, response: "a" },
            DapAction::SetStatus(DapNote::ApplicationStarted)
        ]
    ));
    let (_, actions): (bool, Actions) = handle_event(
        &mut state,
        7,
        DapEvent::Terminated { restart: Some(Restart::Bool(true)) },
    );
    assert!(matches!(actions[..], [DapAction::Disconnect { restart_requested: true, .. }]));
    let stale: Actions = apply_disconnect_completed(
        &mut state,
        7,
        9,
        None,
        Some(ConnectionType::Launch),
        Ok(()),
    );
    assert!(stale.is_empty());
    assert!(state.has_client(7));
    let actions: Actions =
        apply_disconnect_completed(&mut state, 7, 1, None, Some(ConnectionType::Launch), Ok(()));
    assert!(actions
        .iter()
        .any(|action| matches!(action, DapAction::SetStatus(DapNote::Terminated))));
    assert!(!state.has_client(7));
}

#[test]
fn requests_of_adapters_are_answered() {
    let mut state = state();
    let facilities = Facilities { terminal: false, over_tcp: true, configured: true };
    let parent =
        || ParentRequest { client_id: 7, sequence: 4, command: "runInTerminal".to_string() };
    let message = ServerMessage::Request { parent: parent(), request: AdapterRequest::Unhandled };
    let (_, actions): (bool, Actions) = handle_message(&mut state, facilities, 7, message);
    assert!(actions.iter().any(|action| matches!(action, DapAction::Reply { .. })));
    let actions: Actions = apply_adapter_reply(&state, parent(), Ok("done"));
    assert!(matches!(actions[..], [DapAction::Reply { .. }]));
    let unexpected: ServerMessage<&str> = ServerMessage::UnexpectedResponse;
    let (handled, _): (bool, Actions) = handle_message(&mut state, facilities, 7, unexpected);
    assert!(!handled);
    let failed: Actions = apply_request_failed(&state, 7, "refused".to_string());
    match &failed[..] {
        [DapAction::SetError(note)] => assert_eq!(note.text(), "refused"),
        other => panic!("{:?}", other),
    }
}

#[test]
fn breakpoints_are_toggled_and_changed() {
    let mut state = state();
    let actions: Actions = apply_toggle_breakpoint(&mut state, &path("/src/a.rs"), 4);
    match &actions[..] {
        [DapAction::SetStatus(_), DapAction::SendBreakpoints { client_id: 7, path: file, expected }] => {
            assert_eq!(*file, path("/src/a.rs"));
            assert_eq!(expected.len(), 1);
            assert_eq!(expected[0].line, 4);
        }
        other => panic!("{:?}", other),
    }
    let configured = breakpoints_to_configure(&state);
    assert_eq!(configured.len(), 1);
    assert_eq!(configured[0].path, path("/src/a.rs"));
    assert_eq!(configured[0].breakpoints[0].line, 4);
    let answered = |answer| {
        let expected = vec![configured[0].breakpoints[0].copy()];
        breakpoints_answered(7, path("/src/a.rs"), expected, answer)
    };
    match answered(Ok("ids")) {
        DapTask::ApplyBreakpointsResponse { client_id: 7, expected, response: "ids", .. } => {
            assert_eq!(expected[0].line, 4)
        }
        other => panic!("{:?}", other),
    }
    match answered(Err("refused".to_string())) {
        DapTask::RequestFailed { client_id: 7, message } => {
            assert_eq!(message, "Failed to set breakpoints: refused")
        }
        other => panic!("{:?}", other),
    }
    assert_eq!(state.breakpoints[0].breakpoints[0].line, 4);
    let change = BreakpointChange::Condition(Some("x > 1".to_string()));
    let _: Actions = apply_breakpoint_change(&mut state, &path("/src/a.rs"), 0, change);
    assert_eq!(state.breakpoints[0].breakpoints[0].condition, Some("x > 1".to_string()));
    let missing = BreakpointChange::LogMessage(None);
    match &apply_breakpoint_change::<&str>(&mut state, &path("/src/b.rs"), 0, missing)[..] {
        [DapAction::SetError(note)] => assert!(!note.text().is_empty()),
        other => panic!("{:?}", other),
    }
    toggle_breakpoint(&mut state.breakpoints, &path("/src/a.rs"), 4);
    assert!(state.breakpoints[0].breakpoints.is_empty());
}

#[test]
fn adapters_move_breakpoints() {
    assert!(matches!(breakpoint_reason("changed"), BreakpointReason::Changed));
    assert!(matches!(breakpoint_reason("else"), BreakpointReason::Unknown));
    let mut state = state();
    toggle_breakpoint(&mut state.breakpoints, &path("/src/a.rs"), 4);
    state.breakpoints[0].breakpoints[0].id = Some(11);
    let breakpoint = AdapterBreakpoint {
        id: Some(11),
        verified: true,
        message: None,
        path: Some(path("/src/a.rs")),
        line: Some(7),
        column: None,
    };
    let event = DapEvent::Breakpoint { reason: BreakpointReason::Changed, breakpoint };
    let _: (bool, Actions) = handle_event(&mut state, 7, event);
    let changed: &Breakpoint = &state.breakpoints[0].breakpoints[0];
    assert_eq!(changed.line, 6);
    assert!(changed.verified);
    unverify_all(&mut state.breakpoints);
    assert!(!state.breakpoints[0].breakpoints[0].verified);
    let expected: Vec<Breakpoint> = Vec::new();
    let actions: Actions = apply_breakpoints_response(&state, 7, &path("/src/a.rs"), &expected, "r");
    assert!(!actions.iter().any(|action| matches!(action, DapAction::ApplyBreakpoints { .. })));
}

#[test]
fn frames_are_selected() {
    let mut state = state();
    state.clients.get_mut(7).unwrap().stack_frames.insert(1, vec![frame(21), frame(22)]);
    let actions: Actions = apply_select_stack_frame(&mut state, 1, 22);
    assert!(matches!(&actions[..], [DapAction::OpenFrame(frame)] if frame.id == 22));
    assert_eq!(state.clients.get(7).unwrap().active_frame, Some(1));
    let actions: Actions = apply_select_stack_frame(&mut state, 1, 99);
    assert!(matches!(actions[..], [DapAction::SetError(DapNote::FrameUnavailable { .. })]));
    let actions: Actions = apply_select_stack_frame(&mut state, 5, 21);
    assert!(matches!(actions[..], [DapAction::SetError(DapNote::FramesUnavailable { thread: 5 })]));
    let actions: Actions = request_select_debug_thread(&mut state, 1, true);
    assert!(actions.iter().any(|action| matches!(action, DapAction::FetchStack { .. })));
    let actions: Actions = request_pause_debug_thread(&state, 1);
    assert!(matches!(actions[..], [DapAction::Pause { client_id: 7, thread_id: 1 }]));
    state.active = None;
    let actions: Actions = request_pause_debug_thread(&state, 1);
    assert!(!actions.iter().any(|action| matches!(action, DapAction::Pause { .. })));
}

#[test]
fn stacks_that_failed_are_told_apart() {
    let parts = part_stacks(vec![(1, Some("a")), (2, None), (3, Some("b"))]);
    assert_eq!(parts.stacks, vec![(1, "a"), (3, "b")]);
    assert_eq!(parts.failed, vec![2]);
}

fn parent(client_id: u64) -> ParentRequest {
    ParentRequest { client_id, sequence: 4, command: "startDebugging".to_string() }
}

fn startup(result: Result<u64, String>, parent: Option<ParentRequest>) -> ClientStartup {
    ClientStartup {
        client_id: 9,
        initializing: true,
        result,
        installs: true,
        connection: ConnectionType::Attach,
        parent,
    }
}

#[test]
fn clients_that_come_up_start_their_session() {
    let state = state();
    let actions: Actions = apply_client_startup_completed(&state, startup(Ok(9), Some(parent(7))));
    assert!(matches!(
        &actions[..],
        [DapAction::StartSession { client_id: 9, connection: ConnectionType::Attach }]
    ));
    let actions: Actions = apply_client_startup_completed(&state, startup(Ok(8), None));
    assert!(matches!(&actions[..], [DapAction::CancelStart { client_id: 9 }]));
    let actions: Actions = apply_client_startup_completed(&state, startup(Ok(9), Some(parent(3))));
    assert!(matches!(&actions[..], [DapAction::CancelStart { client_id: 9 }]));
    let forgotten = ClientStartup { initializing: false, ..startup(Ok(9), None) };
    let actions: Actions = apply_client_startup_completed(&state, forgotten);
    assert!(actions.is_empty());
    let failed = startup(Err("no adapter".to_string()), Some(parent(7)));
    let actions: Actions = apply_client_startup_completed(&state, failed);
    match &actions[..] {
        [DapAction::CancelStart { client_id: 9 }, DapAction::SetError(DapNote::StartFailed { child: true, error }), DapAction::Reply { parent, reply: Reply::Failure(_) }] =>
        {
            assert_eq!(error, "no adapter");
            assert_eq!(parent.sequence, 4);
        }
        _ => panic!("a failure is told, also to the parent"),
    }
}

#[test]
fn sessions_that_start_are_told_to_the_parent() {
    let state = state();
    let started: Actions =
        apply_session_startup_completed(&state, 9, true, Some(parent(7)), Ok(()));
    assert!(matches!(
        &started[..],
        [DapAction::SessionStarted { client_id: 9 }, DapAction::Reply { reply: Reply::Success, .. }]
    ));
    let orphan: Actions = apply_session_startup_completed(&state, 9, true, Some(parent(3)), Ok(()));
    assert!(matches!(&orphan[..], [DapAction::SessionStarted { client_id: 9 }]));
    let failed: Actions =
        apply_session_startup_completed(&state, 9, true, None, Err("refused".to_string()));
    match &failed[..] {
        [DapAction::SessionFailed { client_id: 9 }, DapAction::SetError(DapNote::SessionFailed { error })] => {
            assert_eq!(error, "refused")
        }
        _ => panic!("a failure is told"),
    }
    let late: Actions = apply_session_startup_completed(&state, 9, false, None, Ok(()));
    assert!(late.is_empty());
}

#[test]
fn only_the_last_restart_is_told() {
    let mut state = state();
    let stale = state.begin_operation(7, DapOperation::Termination);
    let generation = state.begin_operation(7, DapOperation::Termination);
    let actions: Actions = apply_relaunch_completed(&state, 7, stale, Ok(()));
    assert!(actions.is_empty());
    let actions: Actions = apply_relaunch_completed(&state, 7, generation, Ok(()));
    assert!(matches!(&actions[..], [DapAction::SetStatus(DapNote::Restarted)]));
    let actions: Actions =
        apply_relaunch_completed(&state, 7, generation, Err("gone".to_string()));
    assert!(matches!(&actions[..], [DapAction::SetError(DapNote::RestartFailed { .. })]));
}

#[test]
fn steps_of_a_session_are_taken_in() {
    let mut state = state();
    let resumed: Actions = apply_dap_task(&mut state, DapTask::ResumeApplication);
    assert!(matches!(
        resumed[..],
        [DapAction::ResumeApplication { client_id: 7 }, DapAction::ClearInlineValues]
    ));
    let condition = DapTask::SetBreakpointCondition {
        path: path("/src/a.rs"),
        index: 0,
        condition: Some("x > 1".to_string()),
    };
    let gone: Actions = apply_dap_task(&mut state, condition);
    assert!(matches!(gone[..], [DapAction::SetError(DapNote::BreakpointFileGone)]));
    let toggle = || DapTask::ToggleBreakpoint { path: path("/src/a.rs"), line: 4 };
    let sent: Actions = apply_dap_task(&mut state, toggle());
    assert!(matches!(
        sent[..],
        [
            DapAction::SetStatus(DapNote::UpdatingBreakpoints),
            DapAction::SendBreakpoints { client_id: 7, .. }
        ]
    ));
    assert_eq!(state.breakpoints[0].breakpoints.len(), 1);
    let late = DapTask::StoppedCompleted {
        client_id: 7,
        generation: 3,
        preferred_thread_id: None,
        stacks: vec![(7, vec![frame(1)])],
    };
    let nothing: Actions = apply_dap_task(&mut state, late);
    assert!(nothing.is_empty());
    let unset: Actions = apply_dap_task(&mut state, DapTask::UnsetActiveClient);
    assert!(matches!(unset[..], [DapAction::ClearInlineValues]));
    assert_eq!(state.active, None);
    let resumed: Actions = apply_dap_task(&mut state, DapTask::ResumeApplication);
    assert!(matches!(resumed[..], [DapAction::ClearInlineValues]));
    let configured: Actions = apply_dap_task(&mut state, DapTask::ExceptionsConfigured);
    assert!(configured.is_empty());
}

#[test]
fn breakpoints_belong_to_paths_however_they_are_written() {
    let mut state = state();
    toggle_breakpoint(&mut state.breakpoints, &path("/src/a.rs"), 4);
    toggle_breakpoint(&mut state.breakpoints, &path("/src//a.rs"), 9);
    toggle_breakpoint(&mut state.breakpoints, &path("/src/./a.rs"), 4);
    assert_eq!(state.breakpoints.len(), 1);
    assert_eq!(state.breakpoints[0].breakpoints.len(), 1);
    assert_eq!(state.breakpoints[0].breakpoints[0].line, 9);
    let found = |reason| DapEvent::Breakpoint {
        reason,
        breakpoint: AdapterBreakpoint {
            id: Some(3),
            verified: true,
            message: None,
            path: Some(path("/src//a.rs")),
            line: Some(2),
            column: None,
        },
    };
    let _: (bool, Actions) = handle_event(&mut state, 7, found(BreakpointReason::New));
    assert_eq!(state.breakpoints.len(), 1);
    assert_eq!(state.breakpoints[0].breakpoints[1].line, 1);
}
