//! What becomes of the answers to questions put to debug adapters.

use vstd::prelude::*;

use crate::effect::dap;
use crate::effect::dap::breakpoints;
use crate::effect::dap::breakpoints::{find_file, same_breakpoints, unverify_all, Breakpoint};
use crate::effect::dap::{
    one_action, ConnectionType, DapAction, DapNote, DapOperation, DebugState, DebugView, Debugger,
    DebuggerView, OperationKey, ParentRequest, Reply, Restart, StackFrame,
};
use crate::paths;

verus! {

/// A reply goes out while the adapter that wants it is there.
pub open spec fn reply_actions<P>(state: DebugView, parent: ParentRequest, reply: Reply<P>) -> Seq<
    DapAction<P>,
> {
    if state.has_client(parent.client_id) {
        seq![DapAction::Reply { parent, reply }]
    } else {
        seq![]
    }
}

/// Replies to an adapter that is still there.
pub fn reply_to_adapter<P>(state: &DebugState, parent: ParentRequest, reply: Reply<P>) -> (r: Vec<
    DapAction<P>,
>)
    requires
        state.wf(),
    ensures
        r@ == reply_actions(state@, parent, reply),
{
    if state.has_client(parent.client_id) {
        one_action(DapAction::Reply { parent, reply })
    } else {
        Vec::new()
    }
}

/// A client that has come up, or has not.
#[derive(Debug)]
pub struct ClientStartup {
    pub client_id: u64,
    /// Whether it is still waited for.
    pub initializing: bool,
    /// The id it came up under, or why it did not.
    pub result: Result<u64, String>,
    /// Whether its place is still free.
    pub installs: bool,
    pub connection: ConnectionType,
    /// Who wanted it, if it is the child of another.
    pub parent: Option<ParentRequest>,
}

pub open spec fn startup_actions<P>(state: DebugView, startup: ClientStartup) -> Seq<DapAction<P>> {
    let id = startup.client_id;
    if !startup.initializing {
        seq![]
    } else if startup.parent matches Some(parent) && !state.has_client(parent.client_id) {
        seq![DapAction::CancelStart { client_id: id }]
    } else {
        match startup.result {
            Err(error) => {
                let told = seq![
                    DapAction::CancelStart { client_id: id },
                    DapAction::SetError(
                        DapNote::StartFailed { child: startup.parent is Some, error },
                    ),
                ];
                match startup.parent {
                    Some(parent) => told + reply_actions(
                        state,
                        parent,
                        Reply::Failure(DapNote::StartFailed { child: true, error }),
                    ),
                    None => told,
                }
            },
            Ok(started) => if started != id {
                seq![DapAction::CancelStart { client_id: id }]
            } else if !startup.installs {
                seq![]
            } else {
                seq![DapAction::StartSession { client_id: id, connection: startup.connection }]
            },
        }
    }
}

/// Takes in a client that has come up and starts its session. One that nobody waits for any more
/// is forgotten; a failure is reported, also to the parent.
pub fn apply_client_startup_completed<P>(state: &DebugState, startup: ClientStartup) -> (r: Vec<
    DapAction<P>,
>)
    requires
        state.wf(),
    ensures
        r@ == startup_actions::<P>(state@, startup),
{
    let client_id = startup.client_id;
    let mut actions: Vec<DapAction<P>> = Vec::new();
    if !startup.initializing {
        assert(actions@ =~= Seq::<DapAction<P>>::empty());
        return actions;
    }
    let orphan = match &startup.parent {
        Some(parent) => !state.has_client(parent.client_id),
        None => false,
    };
    if orphan {
        return one_action(DapAction::CancelStart { client_id });
    }
    match startup.result {
        Err(error) => {
            actions.push(DapAction::CancelStart { client_id });
            match startup.parent {
                Some(parent) => {
                    actions.push(
                        DapAction::SetError(
                            DapNote::StartFailed { child: true, error: error.clone() },
                        ),
                    );
                    let mut reply = reply_to_adapter(
                        state,
                        parent,
                        Reply::Failure(DapNote::StartFailed { child: true, error }),
                    );
                    let ghost told = actions@;
                    actions.append(&mut reply);
                    assert(actions@ =~= startup_actions::<P>(state@, startup));
                },
                None => {
                    actions.push(
                        DapAction::SetError(DapNote::StartFailed { child: false, error }),
                    );
                    assert(actions@ =~= startup_actions::<P>(state@, startup));
                },
            }
            actions
        },
        Ok(started) => {
            if started != client_id {
                one_action(DapAction::CancelStart { client_id })
            } else if !startup.installs {
                assert(actions@ =~= Seq::<DapAction<P>>::empty());
                actions
            } else {
                one_action(
                    DapAction::StartSession { client_id, connection: startup.connection },
                )
            }
        },
    }
}

pub open spec fn session_actions<P>(
    state: DebugView,
    client_id: u64,
    starting: bool,
    parent: Option<ParentRequest>,
    result: Result<(), String>,
) -> Seq<DapAction<P>> {
    if !starting {
        seq![]
    } else {
        match result {
            Err(message) => {
                let told = seq![
                    DapAction::SessionFailed { client_id },
                    DapAction::SetError(DapNote::SessionFailed { error: message }),
                ];
                match parent {
                    Some(parent) => told + reply_actions(
                        state,
                        parent,
                        Reply::Failure(DapNote::Text(message)),
                    ),
                    None => told,
                }
            },
            Ok(_) => {
                let told = seq![DapAction::SessionStarted { client_id }];
                match parent {
                    Some(parent) => told + reply_actions(state, parent, Reply::Success),
                    None => told,
                }
            },
        }
    }
}

/// Takes in that a session has started, or has not, and tells the parent.
pub fn apply_session_startup_completed<P>(
    state: &DebugState,
    client_id: u64,
    starting: bool,
    parent: Option<ParentRequest>,
    result: Result<(), String>,
) -> (r: Vec<DapAction<P>>)
    requires
        state.wf(),
    ensures
        r@ == session_actions::<P>(state@, client_id, starting, parent, result),
{
    let mut actions: Vec<DapAction<P>> = Vec::new();
    if !starting {
        assert(actions@ =~= Seq::<DapAction<P>>::empty());
        return actions;
    }
    match result {
        Err(message) => {
            actions.push(DapAction::SessionFailed { client_id });
            match parent {
                Some(parent) => {
                    actions.push(
                        DapAction::SetError(DapNote::SessionFailed { error: message.clone() }),
                    );
                    let mut reply = reply_to_adapter(
                        state,
                        parent,
                        Reply::Failure(DapNote::Text(message)),
                    );
                    actions.append(&mut reply);
                },
                None => {
                    actions.push(DapAction::SetError(DapNote::SessionFailed { error: message }));
                },
            }
        },
        Ok(_) => {
            actions.push(DapAction::SessionStarted { client_id });
            if let Some(parent) = parent {
                let mut reply = reply_to_adapter(state, parent, Reply::Success);
                actions.append(&mut reply);
            }
        },
    }
    assert(actions@ =~= session_actions::<P>(state@, client_id, starting, parent, result));
    actions
}

/// The calls of the threads, as they were fetched.
pub open spec fn with_stacks(
    frames: Map<i64, Vec<StackFrame>>,
    stacks: Seq<(i64, Vec<StackFrame>)>,
) -> Map<i64, Vec<StackFrame>>
    decreases stacks.len(),
{
    if stacks.len() == 0 {
        frames
    } else {
        with_stacks(frames, stacks.drop_last()).insert(stacks.last().0, stacks.last().1)
    }
}

pub open spec fn has_stack(stacks: Seq<(i64, Vec<StackFrame>)>, thread: i64) -> bool {
    exists|i: int| 0 <= i < stacks.len() && (#[trigger] stacks[i]).0 == thread
}

/// The thread that is looked at after a stop: the one that stopped, if its calls are known, or
/// else the first.
pub open spec fn thread_to_show(
    preferred: Option<i64>,
    stacks: Seq<(i64, Vec<StackFrame>)>,
) -> Option<i64> {
    match preferred {
        Some(thread) if has_stack(stacks, thread) => Some(thread),
        _ => if stacks.len() > 0 {
            Some(stacks[0].0)
        } else {
            None
        },
    }
}

/// What is known about a program after its calls were fetched.
pub open spec fn stopped_debugger(
    debugger: DebuggerView,
    preferred: Option<i64>,
    stacks: Seq<(i64, Vec<StackFrame>)>,
) -> DebuggerView {
    let frames = with_stacks(debugger.stack_frames, stacks);
    match debugger.thread_id {
        None => {
            let thread = thread_to_show(preferred, stacks);
            DebuggerView {
                stack_frames: frames,
                thread_id: thread,
                active_frame: if thread is Some {
                    Some(0usize)
                } else {
                    None
                },
                ..debugger
            }
        },
        Some(thread) => DebuggerView {
            stack_frames: frames,
            active_frame: if frames.dom().contains(thread) {
                Some(0usize)
            } else {
                debugger.active_frame
            },
            ..debugger
        },
    }
}

/// The first call of a thread, if its place can be shown.
pub open spec fn first_frame(frames: Map<i64, Vec<StackFrame>>, thread: Option<i64>) -> Option<
    StackFrame,
> {
    match thread {
        Some(thread) if frames.dom().contains(thread) && frames[thread]@.len() > 0
            && frames[thread]@[0].path is Some => Some(frames[thread]@[0]),
        _ => None,
    }
}

pub open spec fn open_frame<P>(frame: Option<StackFrame>) -> Seq<DapAction<P>> {
    match frame {
        Some(frame) => seq![DapAction::OpenFrame(frame)],
        None => seq![],
    }
}

/// The answer counts: nothing newer was asked, and the adapter is there.
pub open spec fn answer_counts(
    state: DebugView,
    client_id: u64,
    operation: DapOperation,
    generation: u64,
) -> bool {
    state.is_current(client_id, operation, generation) && state.has_client(client_id)
}

/// What the calls of stopped threads do: they are kept, and if no thread was looked at one is,
/// at its last call, which is shown if commands go to this adapter.
pub open spec fn stopped_completed<P>(
    state: DebugView,
    client_id: u64,
    generation: u64,
    preferred: Option<i64>,
    stacks: Seq<(i64, Vec<StackFrame>)>,
) -> (DebugView, Seq<DapAction<P>>) {
    if !answer_counts(state, client_id, DapOperation::StackTrace, generation) {
        (state, seq![])
    } else {
        let before = state.clients[client_id];
        let after = stopped_debugger(before, preferred, stacks);
        (
            state.with_client(client_id, after),
            if before.thread_id is None && state.active_client() == Some(client_id) {
                open_frame(first_frame(after.stack_frames, after.thread_id))
            } else {
                seq![]
            },
        )
    }
}

fn find_stack(stacks: &Vec<(i64, Vec<StackFrame>)>, thread: i64) -> (r: bool)
    ensures
        r == has_stack(stacks@, thread),
{
    let mut i: usize = 0;
    while i < stacks.len()
        invariant
            i <= stacks@.len(),
            forall|j: int| 0 <= j < i ==> (#[trigger] stacks@[j]).0 != thread,
        decreases stacks@.len() - i,
    {
        if stacks[i].0 == thread {
            assert(stacks@[i as int].0 == thread);
            return true;
        }
        i += 1;
    }
    false
}

fn choose_thread(preferred: Option<i64>, stacks: &Vec<(i64, Vec<StackFrame>)>) -> (r: Option<i64>)
    ensures
        r == thread_to_show(preferred, stacks@),
{
    if let Some(thread) = preferred {
        if find_stack(stacks, thread) {
            return Some(thread);
        }
    }
    if stacks.len() > 0 {
        Some(stacks[0].0)
    } else {
        None
    }
}

fn find_first_frame(debugger: &Debugger, thread: Option<i64>) -> (r: Option<StackFrame>)
    requires
        debugger.wf(),
    ensures
        r == first_frame(debugger@.stack_frames, thread),
{
    match thread {
        Some(thread) => match debugger.stack_frames.get(thread) {
            Some(frames) => if frames.len() > 0 && frames[0].path.is_some() {
                Some(frames[0].copy())
            } else {
                None
            },
            None => None,
        },
        None => None,
    }
}

fn keep_stacks(debugger: &mut Debugger, stacks: Vec<(i64, Vec<StackFrame>)>)
    requires
        old(debugger).wf(),
    ensures
        final(debugger).wf(),
        final(debugger)@ == (DebuggerView {
            stack_frames: with_stacks(old(debugger)@.stack_frames, stacks@),
            ..old(debugger)@
        }),
{
    let ghost all = stacks@;
    let ghost before = debugger@;
    assert(all.take(0) =~= seq![]);
    for stack in it: stacks
        invariant
            it.seq() == all,
            before == old(debugger)@,
            debugger.wf(),
            debugger@ == (DebuggerView {
                stack_frames: with_stacks(before.stack_frames, all.take(it.index())),
                ..before
            }),
    {
        assert(all.take(it.index() + 1).drop_last() =~= all.take(it.index()));
        assert(all.take(it.index() + 1).last() == stack);
        debugger.stack_frames.insert(stack.0, stack.1);
    }
    assert(all.take(all.len() as int) =~= all);
}

fn update_stopped(
    debugger: &mut Debugger,
    preferred: Option<i64>,
    stacks: Vec<(i64, Vec<StackFrame>)>,
) -> (r: Option<StackFrame>)
    requires
        old(debugger).wf(),
    ensures
        final(debugger).wf(),
        final(debugger)@ == stopped_debugger(old(debugger)@, preferred, stacks@),
        r == if old(debugger)@.thread_id is None {
            first_frame(final(debugger)@.stack_frames, final(debugger)@.thread_id)
        } else {
            None
        },
        // The thread that stopped is looked at if none was and its calls are known.
        old(debugger)@.thread_id is None && preferred is Some && (exists|i: int|
            0 <= i < stacks@.len() && (#[trigger] stacks@[i]).0 == preferred->0)
            ==> final(debugger)@.thread_id == preferred && final(debugger)@.active_frame == Some(
            0usize,
        ),
{
    let thread = choose_thread(preferred, &stacks);
    keep_stacks(debugger, stacks);
    match debugger.thread_id {
        None => {
            debugger.thread_id = thread;
            debugger.active_frame = if thread.is_some() {
                Some(0)
            } else {
                None
            };
            find_first_frame(debugger, thread)
        },
        Some(current) => {
            if debugger.stack_frames.contains_key(current) {
                debugger.active_frame = Some(0);
            }
            None
        },
    }
}

/// Takes in the calls of stopped threads.
pub fn apply_stopped_completed<P>(
    state: &mut DebugState,
    client_id: u64,
    generation: u64,
    preferred_thread_id: Option<i64>,
    stacks: Vec<(i64, Vec<StackFrame>)>,
) -> (r: Vec<DapAction<P>>)
    requires
        old(state).wf(),
    ensures
        final(state).wf(),
        ({
            let after = stopped_completed::<P>(
                old(state)@,
                client_id,
                generation,
                preferred_thread_id,
                stacks@,
            );
            final(state)@ == after.0 && r@ == after.1
        }),
{
    let mut actions: Vec<DapAction<P>> = Vec::new();
    if !state.is_current_operation(client_id, DapOperation::StackTrace, generation) {
        assert(actions@ =~= Seq::<DapAction<P>>::empty());
        return actions;
    }
    let should_navigate = match state.active_client() {
        Some(id) => id == client_id,
        None => false,
    };
    let ghost clients = state.clients@;
    let frame = match state.clients.get_mut(client_id) {
        Some(debugger) => update_stopped(debugger, preferred_thread_id, stacks),
        None => {
            assert(actions@ =~= Seq::<DapAction<P>>::empty());
            return actions;
        },
    };
    proof {
        dap::lemma_client_views_insert(clients, client_id, state.clients@[client_id]);
        assert(state.clients@ =~= clients.insert(client_id, state.clients@[client_id]));
    }
    if should_navigate {
        if let Some(frame) = frame {
            actions.push(DapAction::OpenFrame(frame));
        }
    }
    assert(actions@ =~= stopped_completed::<P>(
        old(state)@,
        client_id,
        generation,
        preferred_thread_id,
        stacks@,
    ).1);
    actions
}

/// What the calls of one thread do: it is the one that is looked at from now on.
pub open spec fn stack_frames_applied<P>(
    state: DebugView,
    client_id: u64,
    generation: u64,
    thread_id: i64,
    frames: Vec<StackFrame>,
    select_first: bool,
) -> (DebugView, Seq<DapAction<P>>) {
    if !answer_counts(state, client_id, DapOperation::StackTrace, generation) {
        (state, seq![])
    } else {
        let before = state.clients[client_id];
        let after = DebuggerView {
            stack_frames: before.stack_frames.insert(thread_id, frames),
            thread_id: Some(thread_id),
            active_frame: if select_first {
                Some(0usize)
            } else {
                None
            },
            ..before
        };
        (
            state.with_client(client_id, after),
            if select_first && state.active_client() == Some(client_id) {
                open_frame(first_frame(after.stack_frames, Some(thread_id)))
            } else {
                seq![]
            },
        )
    }
}

/// Takes in the calls of one thread.
pub fn apply_stack_frames<P>(
    state: &mut DebugState,
    client_id: u64,
    generation: u64,
    thread_id: i64,
    frames: Vec<StackFrame>,
    select_first: bool,
) -> (r: Vec<DapAction<P>>)
    requires
        old(state).wf(),
    ensures
        final(state).wf(),
        ({
            let after = stack_frames_applied::<P>(
                old(state)@,
                client_id,
                generation,
                thread_id,
                frames,
                select_first,
            );
            final(state)@ == after.0 && r@ == after.1
        }),
{
    let mut actions: Vec<DapAction<P>> = Vec::new();
    if !state.is_current_operation(client_id, DapOperation::StackTrace, generation) {
        assert(actions@ =~= Seq::<DapAction<P>>::empty());
        return actions;
    }
    let should_navigate = match state.active_client() {
        Some(id) => id == client_id,
        None => false,
    };
    let ghost clients = state.clients@;
    let frame = match state.clients.get_mut(client_id) {
        Some(debugger) => {
            debugger.stack_frames.insert(thread_id, frames);
            debugger.thread_id = Some(thread_id);
            debugger.active_frame = if select_first {
                Some(0)
            } else {
                None
            };
            find_first_frame(debugger, Some(thread_id))
        },
        None => {
            assert(actions@ =~= Seq::<DapAction<P>>::empty());
            return actions;
        },
    };
    proof {
        dap::lemma_client_views_insert(clients, client_id, state.clients@[client_id]);
        assert(state.clients@ =~= clients.insert(client_id, state.clients@[client_id]));
    }
    if select_first && should_navigate {
        if let Some(frame) = frame {
            actions.push(DapAction::OpenFrame(frame));
        }
    }
    assert(actions@ =~= stack_frames_applied::<P>(
        old(state)@,
        client_id,
        generation,
        thread_id,
        frames,
        select_first,
    ).1);
    actions
}

/// The file whose breakpoints an adapter has confirmed, if they are as they were sent.
pub open spec fn confirmed_file(
    state: DebugView,
    client_id: u64,
    path: Seq<Seq<char>>,
    expected: Seq<Breakpoint>,
) -> Option<int> {
    match breakpoints::file_index(state.breakpoints, path) {
        Some(i) if state.has_client(client_id) && breakpoints::breakpoint_views(
            state.breakpoints[i].breakpoints,
        ) == breakpoints::breakpoint_views(expected) => Some(i),
        _ => None,
    }
}

/// What an adapter's words on the breakpoints of a file do.
pub open spec fn response_actions<P>(
    state: DebugView,
    client_id: u64,
    path: Seq<Seq<char>>,
    expected: Seq<Breakpoint>,
    response: P,
) -> Seq<DapAction<P>> {
    match confirmed_file(state, client_id, path, expected) {
        Some(i) => seq![DapAction::ApplyBreakpoints { file: i as usize, response }],
        None => seq![],
    }
}

/// Takes in what an adapter says about the breakpoints of a file, unless they have changed since
/// they were sent.
pub fn apply_breakpoints_response<P>(
    state: &DebugState,
    client_id: u64,
    path: &Vec<String>,
    expected: &Vec<Breakpoint>,
    response: P,
) -> (r: Vec<DapAction<P>>)
    requires
        state.wf(),
    ensures
        r@ == response_actions(state@, client_id, paths::parts(path@), expected@, response),
{
    if !state.has_client(client_id) {
        return Vec::new();
    }
    proof {
        breakpoints::lemma_file_index(state@.breakpoints, paths::parts(path@));
    }
    match find_file(&state.breakpoints, path) {
        Some(file) => {
            assert(state@.breakpoints[file as int].breakpoints
                == state.breakpoints@[file as int].breakpoints@);
            if same_breakpoints(&state.breakpoints[file].breakpoints, expected) {
                one_action(DapAction::ApplyBreakpoints { file, response })
            } else {
                Vec::new()
            }
        },
        None => Vec::new(),
    }
}

/// The breakpoints of a file as an adapter got them, and what it said to them.
#[derive(Debug)]
pub struct ConfiguredBreakpoints<P> {
    /// The components of the path.
    pub path: Vec<String>,
    pub expected: Vec<Breakpoint>,
    pub result: Result<P, String>,
}

/// What an adapter's words on the breakpoints of several files do. Where it refused them,
/// nothing.
pub open spec fn configured_actions<P>(
    state: DebugView,
    client_id: u64,
    files: Seq<ConfiguredBreakpoints<P>>,
) -> Seq<DapAction<P>>
    decreases files.len(),
{
    if files.len() == 0 {
        seq![]
    } else {
        let last = files.last();
        configured_actions(state, client_id, files.drop_last()) + match last.result {
            Ok(response) => response_actions(
                state,
                client_id,
                paths::parts(last.path@),
                last.expected@,
                response,
            ),
            Err(_) => seq![],
        }
    }
}

/// How configuring an adapter went.
pub open spec fn configured<P>(
    state: DebugView,
    client_id: u64,
    generation: u64,
    files: Seq<ConfiguredBreakpoints<P>>,
    result: Result<(), String>,
) -> (DebugView, Seq<DapAction<P>>) {
    if !answer_counts(state, client_id, DapOperation::Configuration, generation) {
        (state, seq![])
    } else {
        (
            DebugView { active: Some(client_id), ..state },
            configured_actions(state, client_id, files).push(
                match result {
                    Ok(_) => DapAction::SetStatus(DapNote::ApplicationStarted),
                    Err(error) => DapAction::SetError(DapNote::ConfigurationFailed { error }),
                },
            ),
        )
    }
}

fn take_in_breakpoints<P>(
    state: &DebugState,
    client_id: u64,
    files: Vec<ConfiguredBreakpoints<P>>,
) -> (r: Vec<DapAction<P>>)
    requires
        state.wf(),
    ensures
        r@ == configured_actions(state@, client_id, files@),
{
    let ghost all = files@;
    let mut actions: Vec<DapAction<P>> = Vec::new();
    assert(all.take(0) =~= seq![]);
    for file in it: files
        invariant
            state.wf(),
            it.seq() == all,
            actions@ == configured_actions(state@, client_id, all.take(it.index())),
    {
        assert(all.take(it.index() + 1).drop_last() =~= all.take(it.index()));
        assert(all.take(it.index() + 1).last() == file);
        match file.result {
            Ok(response) => {
                let mut more = apply_breakpoints_response(
                    state,
                    client_id,
                    &file.path,
                    &file.expected,
                    response,
                );
                actions.append(&mut more);
            },
            Err(_) => {
                assert(actions@ + Seq::<DapAction<P>>::empty() =~= actions@);
            },
        }
    }
    assert(all.take(all.len() as int) =~= all);
    actions
}

/// Takes in that an adapter is configured, and its words on the breakpoints of each file:
/// commands go to it from now on.
pub fn apply_initialized_completed<P>(
    state: &mut DebugState,
    client_id: u64,
    generation: u64,
    files: Vec<ConfiguredBreakpoints<P>>,
    configuration_result: Result<(), String>,
) -> (r: Vec<DapAction<P>>)
    requires
        old(state).wf(),
    ensures
        final(state).wf(),
        ({
            let after = configured(
                old(state)@,
                client_id,
                generation,
                files@,
                configuration_result,
            );
            final(state)@ == after.0 && r@ == after.1
        }),
{
    if !state.is_current_operation(client_id, DapOperation::Configuration, generation)
        || !state.has_client(client_id) {
        return Vec::new();
    }
    let mut actions = take_in_breakpoints(state, client_id, files);
    state.active = Some(client_id);
    match configuration_result {
        Ok(_) => {
            actions.push(DapAction::SetStatus(DapNote::ApplicationStarted));
        },
        Err(error) => {
            actions.push(DapAction::SetError(DapNote::ConfigurationFailed { error }));
        },
    }
    actions
}

/// Nothing is left of an adapter: neither its program, nor what was asked of it, nor that its
/// breakpoints are confirmed.
pub open spec fn forgotten(state: DebugView, client_id: u64) -> DebugView {
    DebugView {
        clients: state.clients.remove(client_id),
        operations: state.operations.remove(
            OperationKey { client_id, operation: DapOperation::StackTrace },
        ).remove(OperationKey { client_id, operation: DapOperation::Configuration }).remove(
            OperationKey { client_id, operation: DapOperation::Termination },
        ),
        breakpoints: breakpoints::map_files(
            state.breakpoints,
            |list: Seq<Breakpoint>| breakpoints::all_unverified(list),
        ),
        active: if state.active == Some(client_id) {
            None
        } else {
            state.active
        },
    }
}

/// What letting go of an adapter does: it is forgotten, or its program is started again.
pub open spec fn disconnected<P>(
    state: DebugView,
    client_id: u64,
    generation: u64,
    restart: Option<Restart<P>>,
    connection: Option<ConnectionType>,
    result: Result<(), String>,
) -> (DebugView, Seq<DapAction<P>>) {
    if !answer_counts(state, client_id, DapOperation::Termination, generation) {
        (state, seq![])
    } else {
        match result {
            Err(error) => (
                state,
                seq![DapAction::SetError(DapNote::CannotDisconnect { error })],
            ),
            Ok(_) => match restart {
                None | Some(Restart::Bool(false)) => (
                    forgotten(state, client_id),
                    seq![
                        DapAction::ClearInlineValues,
                        DapAction::SetStatus(DapNote::Terminated),
                    ],
                ),
                Some(arguments) => match connection {
                    None => (state, seq![DapAction::SetError(DapNote::NoStartingRequest)]),
                    Some(connection) => (
                        state,
                        seq![DapAction::Relaunch { client_id, generation, connection, arguments }],
                    ),
                },
            },
        }
    }
}

fn forget(state: &mut DebugState, client_id: u64)
    requires
        old(state).wf(),
    ensures
        final(state).wf(),
        final(state)@ == forgotten(old(state)@, client_id),
{
    let ghost clients = state.clients@;
    let _ = state.clients.remove(client_id);
    proof {
        dap::lemma_client_views_remove(clients, client_id);
    }
    let _ = state.operations.remove(
        OperationKey { client_id, operation: DapOperation::StackTrace },
    );
    let _ = state.operations.remove(
        OperationKey { client_id, operation: DapOperation::Configuration },
    );
    let _ = state.operations.remove(
        OperationKey { client_id, operation: DapOperation::Termination },
    );
    unverify_all(&mut state.breakpoints);
    if let Some(id) = state.active {
        if id == client_id {
            state.active = None;
        }
    }
}

/// Takes in that an adapter was let go of.
pub fn apply_disconnect_completed<P>(
    state: &mut DebugState,
    client_id: u64,
    generation: u64,
    restart: Option<Restart<P>>,
    connection_type: Option<ConnectionType>,
    result: Result<(), String>,
) -> (r: Vec<DapAction<P>>)
    requires
        old(state).wf(),
    ensures
        final(state).wf(),
        ({
            let after = disconnected(
                old(state)@,
                client_id,
                generation,
                restart,
                connection_type,
                result,
            );
            final(state)@ == after.0 && r@ == after.1
        }),
{
    if !state.is_current_operation(client_id, DapOperation::Termination, generation)
        || !state.has_client(client_id) {
        return Vec::new();
    }
    if let Err(error) = result {
        return one_action(DapAction::SetError(DapNote::CannotDisconnect { error }));
    }
    match restart {
        None | Some(Restart::Bool(false)) => {
            let ghost before = state@;
            forget(state, client_id);
            let mut actions: Vec<DapAction<P>> = Vec::new();
            actions.push(DapAction::ClearInlineValues);
            actions.push(DapAction::SetStatus(DapNote::Terminated));
            assert(actions@ =~= disconnected(
                before,
                client_id,
                generation,
                restart,
                connection_type,
                result,
            ).1);
            actions
        },
        Some(arguments) => match connection_type {
            None => one_action(DapAction::SetError(DapNote::NoStartingRequest)),
            Some(connection) => one_action(
                DapAction::Relaunch { client_id, generation, connection, arguments },
            ),
        },
    }
}

/// After an adapter was forgotten no answer of it counts.
pub proof fn law_forgotten_adapters_are_not_heard(
    state: DebugView,
    client_id: u64,
    operation: DapOperation,
    generation: u64,
)
    ensures
        !answer_counts(forgotten(state, client_id), client_id, operation, generation),
        !forgotten(state, client_id).is_current(client_id, operation, generation),
        forgotten(state, client_id).active_client() != Some(client_id),
{
}

/// What starting a program again leads to.
pub open spec fn relaunched<P>(
    state: DebugView,
    client_id: u64,
    generation: u64,
    result: Result<(), String>,
) -> Seq<DapAction<P>> {
    if !answer_counts(state, client_id, DapOperation::Termination, generation) {
        seq![]
    } else {
        match result {
            Ok(_) => seq![DapAction::SetStatus(DapNote::Restarted)],
            Err(error) => seq![DapAction::SetError(DapNote::RestartFailed { error })],
        }
    }
}

/// Takes in that a program was started again.
pub fn apply_relaunch_completed<P>(
    state: &DebugState,
    client_id: u64,
    generation: u64,
    result: Result<(), String>,
) -> (r: Vec<DapAction<P>>)
    requires
        state.wf(),
    ensures
        r@ == relaunched::<P>(state@, client_id, generation, result),
{
    if !state.is_current_operation(client_id, DapOperation::Termination, generation)
        || !state.has_client(client_id) {
        return Vec::new();
    }
    match result {
        Ok(_) => one_action(DapAction::SetStatus(DapNote::Restarted)),
        Err(error) => one_action(DapAction::SetError(DapNote::RestartFailed { error })),
    }
}

/// What is done once it is known what a request of an adapter comes to.
pub open spec fn answered<P>(
    state: DebugView,
    parent: ParentRequest,
    result: Result<P, String>,
) -> Seq<DapAction<P>> {
    match result {
        Ok(value) => reply_actions(state, parent, Reply::Value(value)),
        Err(error) => seq![DapAction::SetError(DapNote::Text(error))] + reply_actions(
            state,
            parent,
            Reply::Failure(DapNote::Text(error)),
        ),
    }
}

/// Replies to a request of an adapter, and says so if it could not be met.
pub fn apply_adapter_reply<P>(
    state: &DebugState,
    parent: ParentRequest,
    result: Result<P, String>,
) -> (r: Vec<DapAction<P>>)
    requires
        state.wf(),
    ensures
        r@ == answered(state@, parent, result),
{
    match result {
        Ok(value) => reply_to_adapter(state, parent, Reply::Value(value)),
        Err(error) => {
            let mut actions = one_action(DapAction::SetError(DapNote::Text(error.clone())));
            let mut reply = reply_to_adapter(state, parent, Reply::Failure(DapNote::Text(error)));
            actions.append(&mut reply);
            actions
        },
    }
}

/// Reports that a request failed, while its adapter is there.
pub fn apply_request_failed<P>(state: &DebugState, client_id: u64, message: String) -> (r: Vec<
    DapAction<P>,
>)
    requires
        state.wf(),
    ensures
        r@ == if state@.has_client(client_id) {
            seq![DapAction::SetError(DapNote::Text(message))]
        } else {
            Seq::<DapAction<P>>::empty()
        },
{
    if state.has_client(client_id) {
        one_action(DapAction::SetError(DapNote::Text(message)))
    } else {
        Vec::new()
    }
}

/// Calls that were fetched are known from then on, the last where a thread comes up twice.
pub proof fn law_fetched_calls_are_kept(
    frames: Map<i64, Vec<StackFrame>>,
    stacks: Seq<(i64, Vec<StackFrame>)>,
    i: int,
)
    requires
        0 <= i < stacks.len(),
        forall|j: int| i < j < stacks.len() ==> (#[trigger] stacks[j]).0 != stacks[i].0,
    ensures
        with_stacks(frames, stacks).dom().contains(stacks[i].0),
        with_stacks(frames, stacks)[stacks[i].0] == stacks[i].1,
    decreases stacks.len(),
{
    let rest = stacks.drop_last();
    if i < rest.len() {
        assert(stacks[stacks.len() - 1].0 != stacks[i].0);
        assert forall|j: int| i < j < rest.len() implies (#[trigger] rest[j]).0 != rest[i].0 by {
            assert(rest[j] == stacks[j]);
        }
        law_fetched_calls_are_kept(frames, rest, i);
    }
}

/// Threads whose calls were not fetched keep those that are known.
pub proof fn law_calls_of_other_threads_stay(
    frames: Map<i64, Vec<StackFrame>>,
    stacks: Seq<(i64, Vec<StackFrame>)>,
    thread: i64,
)
    requires
        forall|i: int| 0 <= i < stacks.len() ==> (#[trigger] stacks[i]).0 != thread,
    ensures
        with_stacks(frames, stacks).dom().contains(thread) == frames.dom().contains(thread),
        with_stacks(frames, stacks)[thread] == frames[thread],
    decreases stacks.len(),
{
    if stacks.len() > 0 {
        let rest = stacks.drop_last();
        assert(stacks[stacks.len() - 1].0 != thread);
        assert forall|i: int| 0 <= i < rest.len() implies (#[trigger] rest[i]).0 != thread by {
            assert(rest[i] == stacks[i]);
        }
        law_calls_of_other_threads_stay(frames, rest, thread);
    }
}

/// If no thread was looked at, the one that stopped is from then on, at its last call, as far as
/// its calls could be fetched; that call is shown if commands go to the adapter.
pub proof fn law_the_stopped_thread_is_looked_at<P>(
    state: DebugView,
    client_id: u64,
    generation: u64,
    thread: i64,
    stacks: Seq<(i64, Vec<StackFrame>)>,
    i: int,
)
    requires
        state.operations.contains_pair(
            OperationKey { client_id, operation: DapOperation::StackTrace },
            generation,
        ),
        state.clients.dom().contains(client_id),
        state.clients[client_id].thread_id is None,
        0 <= i < stacks.len(),
        stacks[i].0 == thread,
        forall|j: int| i < j < stacks.len() ==> (#[trigger] stacks[j]).0 != thread,
    ensures
        ({
            let (after, actions) = stopped_completed::<P>(
                state,
                client_id,
                generation,
                Some(thread),
                stacks,
            );
            let debugger = after.clients[client_id];
            &&& after.clients.dom() == state.clients.dom()
            &&& debugger.thread_id == Some(thread)
            &&& debugger.active_frame == Some(0usize)
            &&& debugger.stack_frames.dom().contains(thread)
            &&& debugger.stack_frames[thread] == stacks[i].1
            &&& state.active == Some(client_id) && stacks[i].1@.len() > 0
                && stacks[i].1@[0].path is Some ==> actions == seq![
                DapAction::<P>::OpenFrame(stacks[i].1@[0]),
            ]
            &&& state.active != Some(client_id) ==> actions.len() == 0
        }),
{
    law_fetched_calls_are_kept(state.clients[client_id].stack_frames, stacks, i);
    let after = stopped_completed::<P>(state, client_id, generation, Some(thread), stacks).0;
    assert(after.clients.dom() =~= state.clients.dom());
}

/// If no thread was looked at and the calls of the one that stopped are not known, the first of
/// those whose calls are is looked at; none if there are no calls.
pub proof fn law_another_thread_may_be_looked_at<P>(
    state: DebugView,
    client_id: u64,
    generation: u64,
    preferred: Option<i64>,
    stacks: Seq<(i64, Vec<StackFrame>)>,
)
    requires
        state.operations.contains_pair(
            OperationKey { client_id, operation: DapOperation::StackTrace },
            generation,
        ),
        state.clients.dom().contains(client_id),
        state.clients[client_id].thread_id is None,
        forall|i: int|
            0 <= i < stacks.len() && preferred is Some ==> (#[trigger] stacks[i]).0 != preferred->0,
    ensures
        ({
            let (after, actions) = stopped_completed::<P>(
                state,
                client_id,
                generation,
                preferred,
                stacks,
            );
            let debugger = after.clients[client_id];
            if stacks.len() > 0 {
                debugger.thread_id == Some(stacks[0].0) && debugger.active_frame == Some(0usize)
            } else {
                debugger.thread_id is None && debugger.active_frame is None && actions.len() == 0
            }
        }),
{
}

/// A thread that is looked at stays so when calls come in, nothing is shown for it, and of the
/// rest of the session only the calls change.
pub proof fn law_a_thread_that_is_looked_at_stays<P>(
    state: DebugView,
    client_id: u64,
    generation: u64,
    preferred: Option<i64>,
    stacks: Seq<(i64, Vec<StackFrame>)>,
    other: u64,
)
    requires
        state.clients.dom().contains(client_id),
        other != client_id,
    ensures
        ({
            let (after, actions) = stopped_completed::<P>(
                state,
                client_id,
                generation,
                preferred,
                stacks,
            );
            &&& state.clients[client_id].thread_id is Some ==> actions.len() == 0
                && after.clients[client_id].thread_id == state.clients[client_id].thread_id
            &&& after.clients[client_id].thread_states == state.clients[client_id].thread_states
            &&& after.active == state.active
            &&& after.operations == state.operations
            &&& after.breakpoints == state.breakpoints
            &&& after.clients.dom().contains(other) == state.clients.dom().contains(other)
            &&& after.clients.dom().contains(other) ==> after.clients[other] == state.clients[other]
        }),
{
}

/// The calls of one thread make it the one that is looked at; its last call is looked at and
/// shown exactly if that is wanted and, for showing it, commands go to the adapter.
pub proof fn law_calls_of_a_thread_select_it<P>(
    state: DebugView,
    client_id: u64,
    generation: u64,
    thread_id: i64,
    frames: Vec<StackFrame>,
    select_first: bool,
)
    requires
        state.operations.contains_pair(
            OperationKey { client_id, operation: DapOperation::StackTrace },
            generation,
        ),
        state.clients.dom().contains(client_id),
    ensures
        ({
            let (after, actions) = stack_frames_applied::<P>(
                state,
                client_id,
                generation,
                thread_id,
                frames,
                select_first,
            );
            let debugger = after.clients[client_id];
            &&& debugger.thread_id == Some(thread_id)
            &&& debugger.stack_frames.dom().contains(thread_id)
            &&& debugger.stack_frames[thread_id] == frames
            &&& forall|other: i64|
                other != thread_id && state.clients[client_id].stack_frames.dom().contains(other)
                    ==> #[trigger] debugger.stack_frames.dom().contains(other)
                    && debugger.stack_frames[other]
                    == state.clients[client_id].stack_frames[other]
            &&& debugger.active_frame == (if select_first {
                Some(0usize)
            } else {
                None
            })
            &&& select_first && state.active == Some(client_id) && frames@.len() > 0
                && frames@[0].path is Some ==> actions == seq![
                DapAction::<P>::OpenFrame(frames@[0]),
            ]
            &&& !select_first || state.active != Some(client_id) ==> actions.len() == 0
        }),
{
}

/// A session that is over leaves nothing of its adapter behind, and nothing of other adapters
/// changes but that breakpoints wait to be confirmed again.
pub proof fn law_sessions_end_for_good<P>(
    state: DebugView,
    client_id: u64,
    generation: u64,
    connection: Option<ConnectionType>,
    other: u64,
    operation: DapOperation,
)
    requires
        state.operations.contains_pair(
            OperationKey { client_id, operation: DapOperation::Termination },
            generation,
        ),
        state.clients.dom().contains(client_id),
        other != client_id,
    ensures
        ({
            let (after, actions) = disconnected::<P>(
                state,
                client_id,
                generation,
                None,
                connection,
                Ok(()),
            );
            let key = OperationKey { client_id: other, operation };
            &&& !after.clients.dom().contains(client_id)
            &&& !after.operations.dom().contains(OperationKey { client_id, operation })
            &&& after.active != Some(client_id)
            &&& state.active != Some(client_id) ==> after.active == state.active
            &&& after.clients.dom().contains(other) == state.clients.dom().contains(other)
            &&& after.clients.dom().contains(other) ==> after.clients[other] == state.clients[other]
            &&& after.operations.dom().contains(key) == state.operations.dom().contains(key)
            &&& after.operations.dom().contains(key) ==> after.operations[key]
                == state.operations[key]
            &&& after.breakpoints.len() == state.breakpoints.len()
            &&& forall|i: int, j: int|
                0 <= i < after.breakpoints.len() && 0 <= j
                    < state.breakpoints[i].breakpoints.len() ==> {
                    let now = (#[trigger] after.breakpoints[i].breakpoints[j]);
                    &&& !now.verified
                    &&& (Breakpoint {
                        verified: state.breakpoints[i].breakpoints[j].verified,
                        ..now
                    }) == state.breakpoints[i].breakpoints[j]
                }
            &&& actions == seq![
                DapAction::<P>::ClearInlineValues,
                DapAction::SetStatus(DapNote::Terminated),
            ]
        }),
{
}

/// Nothing is forgotten when letting go of an adapter failed, or when the program is to start
/// again: that is asked for with what was given.
pub proof fn law_restarts_keep_the_session<P>(
    state: DebugView,
    client_id: u64,
    generation: u64,
    restart: Option<Restart<P>>,
    connection: ConnectionType,
    error: String,
)
    requires
        state.operations.contains_pair(
            OperationKey { client_id, operation: DapOperation::Termination },
            generation,
        ),
        state.clients.dom().contains(client_id),
    ensures
        ({
            let (failed, told) = disconnected::<P>(
                state,
                client_id,
                generation,
                restart,
                Some(connection),
                Err(error),
            );
            failed == state && told == seq![
                DapAction::<P>::SetError(DapNote::CannotDisconnect { error }),
            ]
        }),
        restart matches Some(arguments) ==> restart != Some(Restart::<P>::Bool(false))
            ==> disconnected::<P>(
            state,
            client_id,
            generation,
            restart,
            Some(connection),
            Ok(()),
        ) == (
            state,
            seq![DapAction::<P>::Relaunch { client_id, generation, connection, arguments }],
        ),
{
}

/// An adapter that is configured is the one that commands go to, and what it said about each file
/// is taken in where it accepted its breakpoints and they are still as they were sent.
pub proof fn law_configured_adapters_become_active<P>(
    state: DebugView,
    client_id: u64,
    generation: u64,
    files: Seq<ConfiguredBreakpoints<P>>,
    result: Result<(), String>,
)
    requires
        state.operations.contains_pair(
            OperationKey { client_id, operation: DapOperation::Configuration },
            generation,
        ),
        state.clients.dom().contains(client_id),
    ensures
        ({
            let (after, actions) = configured(state, client_id, generation, files, result);
            &&& after == (DebugView { active: Some(client_id), ..state })
            &&& actions.len() <= files.len() + 1
            &&& actions.last() == match result {
                Ok(_) => DapAction::<P>::SetStatus(DapNote::ApplicationStarted),
                Err(error) => DapAction::<P>::SetError(DapNote::ConfigurationFailed { error }),
            }
            &&& (forall|i: int| 0 <= i < files.len() ==> (#[trigger] files[i]).result is Err)
                ==> actions.len() == 1
        }),
{
    lemma_refused_files(state, client_id, files);
}

proof fn lemma_refused_files<P>(
    state: DebugView,
    client_id: u64,
    files: Seq<ConfiguredBreakpoints<P>>,
)
    ensures
        configured_actions(state, client_id, files).len() <= files.len(),
        (forall|i: int| 0 <= i < files.len() ==> (#[trigger] files[i]).result is Err)
            ==> configured_actions(state, client_id, files).len() == 0,
    decreases files.len(),
{
    if files.len() > 0 {
        let rest = files.drop_last();
        lemma_refused_files(state, client_id, rest);
        assert(files.last() == files[files.len() - 1]);
        assert(forall|i: int| 0 <= i < rest.len() ==> #[trigger] rest[i] == files[i]);
    }
}

/// An adapter's words are taken in for a file exactly where the file has the breakpoints that were
/// sent, one for one.
pub proof fn law_words_on_changed_breakpoints_are_dropped<P>(
    state: DebugView,
    client_id: u64,
    file: int,
    expected: Seq<Breakpoint>,
    response: P,
)
    requires
        state.clients.dom().contains(client_id),
        0 <= file < state.breakpoints.len() <= usize::MAX,
        forall|i: int|
            0 <= i < state.breakpoints.len() && i != file ==> (#[trigger] state.breakpoints[i]).path
                != state.breakpoints[file].path,
    ensures
        ({
            let list = state.breakpoints[file].breakpoints;
            let actions = response_actions(
                state,
                client_id,
                state.breakpoints[file].path,
                expected,
                response,
            );
            let unchanged = list.len() == expected.len() && forall|i: int|
                0 <= i < list.len() ==> (#[trigger] list[i])@ == expected[i]@;
            if unchanged {
                actions == seq![DapAction::ApplyBreakpoints { file: file as usize, response }]
            } else {
                actions.len() == 0
            }
        }),
{
    let path = state.breakpoints[file].path;
    breakpoints::lemma_file_index(state.breakpoints, path);
    assert(breakpoints::file_index(state.breakpoints, path) == Some(file));
    let list = state.breakpoints[file].breakpoints;
    let (a, b) = (breakpoints::breakpoint_views(list), breakpoints::breakpoint_views(expected));
    assert(a.len() == list.len() && b.len() == expected.len());
    if list.len() == expected.len() && forall|i: int|
        0 <= i < list.len() ==> (#[trigger] list[i])@ == expected[i]@ {
        assert(a =~= b);
    } else if a == b {
        assert forall|i: int| 0 <= i < list.len() implies (#[trigger] list[i])@ == expected[i]@ by {
            assert(a[i] == list[i]@ && b[i] == expected[i]@);
        }
    }
}

/// Nothing is answered to an adapter that is gone; one that is there gets every reply.
pub proof fn law_requests_are_answered<P>(
    state: DebugView,
    parent: ParentRequest,
    value: P,
    error: String,
)
    ensures
        state.clients.dom().contains(parent.client_id) ==> {
            &&& answered(state, parent, Ok(value)) == seq![
                DapAction::Reply { parent, reply: Reply::Value(value) },
            ]
            &&& answered::<P>(state, parent, Err(error)) == seq![
                DapAction::<P>::SetError(DapNote::Text(error)),
                DapAction::Reply { parent, reply: Reply::Failure(DapNote::Text(error)) },
            ]
        },
        !state.clients.dom().contains(parent.client_id) ==> {
            &&& answered(state, parent, Ok(value)).len() == 0
            &&& answered::<P>(state, parent, Err(error)) == seq![
                DapAction::<P>::SetError(DapNote::Text(error)),
            ]
        },
{
    assert(answered::<P>(state, parent, Err(error)) =~= if state.clients.dom().contains(
        parent.client_id,
    ) {
        seq![
            DapAction::<P>::SetError(DapNote::Text(error)),
            DapAction::Reply { parent, reply: Reply::Failure(DapNote::Text(error)) },
        ]
    } else {
        seq![DapAction::<P>::SetError(DapNote::Text(error))]
    });
}

/// A session is started exactly for a client that was waited for, came up under its own id, has
/// its place and whose parent, if it has one, is still there.
pub proof fn law_only_awaited_clients_start_sessions<P>(state: DebugView, startup: ClientStartup, i: int)
    requires
        0 <= i < startup_actions::<P>(state, startup).len(),
        startup_actions::<P>(state, startup)[i] is StartSession,
    ensures
        startup.initializing,
        startup.installs,
        startup.result == Ok::<u64, String>(startup.client_id),
        startup.parent matches Some(parent) ==> state.clients.dom().contains(parent.client_id),
        startup_actions::<P>(state, startup) == seq![
            DapAction::<P>::StartSession {
                client_id: startup.client_id,
                connection: startup.connection,
            },
        ],
{
}

/// A session that was waited for is started or has failed, and its parent, if it is there, is told
/// the one or the other.
pub proof fn law_parents_are_told_of_their_child<P>(
    state: DebugView,
    client_id: u64,
    parent: ParentRequest,
    error: String,
)
    requires
        state.clients.dom().contains(parent.client_id),
    ensures
        session_actions::<P>(state, client_id, true, Some(parent), Ok(())) == seq![
            DapAction::<P>::SessionStarted { client_id },
            DapAction::Reply { parent, reply: Reply::Success },
        ],
        session_actions::<P>(state, client_id, true, Some(parent), Err(error)) == seq![
            DapAction::<P>::SessionFailed { client_id },
            DapAction::SetError(DapNote::SessionFailed { error }),
            DapAction::Reply { parent, reply: Reply::Failure(DapNote::Text(error)) },
        ],
        session_actions::<P>(state, client_id, true, None, Ok(())) == seq![
            DapAction::<P>::SessionStarted { client_id },
        ],
        session_actions::<P>(state, client_id, false, Some(parent), Ok(())).len() == 0,
{
    assert(session_actions::<P>(state, client_id, true, Some(parent), Ok(())) =~= seq![
        DapAction::<P>::SessionStarted { client_id },
        DapAction::Reply { parent, reply: Reply::Success },
    ]);
    assert(session_actions::<P>(state, client_id, true, Some(parent), Err(error)) =~= seq![
        DapAction::<P>::SessionFailed { client_id },
        DapAction::SetError(DapNote::SessionFailed { error }),
        DapAction::Reply { parent, reply: Reply::Failure(DapNote::Text(error)) },
    ]);
}

/// That a program runs again, or could not be started again, is told while that is still asked.
pub proof fn law_restarts_are_told<P>(
    state: DebugView,
    client_id: u64,
    generation: u64,
    error: String,
)
    requires
        state.operations.contains_pair(
            OperationKey { client_id, operation: DapOperation::Termination },
            generation,
        ),
        state.clients.dom().contains(client_id),
    ensures
        relaunched::<P>(state, client_id, generation, Ok(())) == seq![
            DapAction::<P>::SetStatus(DapNote::Restarted),
        ],
        relaunched::<P>(state, client_id, generation, Err(error)) == seq![
            DapAction::<P>::SetError(DapNote::RestartFailed { error }),
        ],
{
}

/// Whoever wanted a child that does not come up hears why, and so does the user; nothing waits for
/// it any more.
pub proof fn law_failed_starts_are_told<P>(state: DebugView, startup: ClientStartup)
    requires
        startup.initializing,
        startup.result is Err,
    ensures
        ({
            let error = startup.result->Err_0;
            let actions = startup_actions::<P>(state, startup);
            &&& actions[0] == (DapAction::<P>::CancelStart { client_id: startup.client_id })
            &&& startup.parent is None ==> actions.len() == 2 && actions[1]
                == DapAction::<P>::SetError(DapNote::StartFailed { child: false, error })
            &&& startup.parent is Some && state.clients.dom().contains(
                startup.parent->0.client_id,
            ) ==> actions.len() == 3 && actions[1] == DapAction::<P>::SetError(
                DapNote::StartFailed { child: true, error },
            ) && actions[2] == (DapAction::<P>::Reply {
                parent: startup.parent->0,
                reply: Reply::Failure(DapNote::StartFailed { child: true, error }),
            })
            &&& startup.parent is Some && !state.clients.dom().contains(
                startup.parent->0.client_id,
            ) ==> actions.len() == 1
        }),
{
}

/// An answer counts only for an adapter that is there, and only for what it was asked last.
pub proof fn law_answers_of_gone_adapters_do_not_count(
    state: DebugView,
    client_id: u64,
    operation: DapOperation,
    generation: u64,
)
    ensures
        !state.clients.dom().contains(client_id) ==> !answer_counts(
            state,
            client_id,
            operation,
            generation,
        ),
        answer_counts(state, client_id, operation, generation) ==> state.operations.contains_pair(
            OperationKey { client_id, operation },
            generation,
        ),
        state.clients.dom().contains(client_id) && state.operations.contains_pair(
            OperationKey { client_id, operation },
            generation,
        ) ==> answer_counts(state, client_id, operation, generation),
{
}

} // verus!
