//! What debug adapters report.

use vstd::prelude::*;

use crate::effect::dap;
use crate::effect::dap::breakpoints;
use crate::effect::dap::breakpoints::{
    apply_breakpoint_event, copy_files, AdapterBreakpoint, BreakpointReason, FileBreakpoints,
};
use crate::effect::dap::{
    one_action, DapAction, DapNote, DapOperation, DebugState, DebugView, DebuggerView, Restart,
    StoppedBody, ThreadState,
};
use crate::text::same_text;

verus! {

/// A report of an adapter. What is only handed on is a `P`.
#[derive(Debug)]
#[allow(inconsistent_fields)]
pub enum DapEvent<P> {
    Stopped(StoppedBody),
    Continued { thread_id: i64 },
    Thread { thread_id: i64, reason: String },
    Breakpoint { reason: BreakpointReason, breakpoint: AdapterBreakpoint },
    Output { category: Option<String>, output: String },
    Initialized,
    Terminated { restart: Option<Restart<P>> },
    Exited { exit_code: i64 },
    /// One that is of no interest.
    Other,
}

/// What a report does.
pub struct EventOutcome<P> {
    pub state: DebugView,
    /// Whether anything has changed that shows.
    pub handled: bool,
    pub actions: Seq<DapAction<P>>,
}

/// The program has stopped: its calls are asked for.
pub open spec fn after_stopped<P>(state: DebugView, client_id: u64, body: StoppedBody) -> EventOutcome<
    P,
> {
    if !state.has_client(client_id) {
        EventOutcome { state, handled: false, actions: seq![] }
    } else {
        let before = state.clients[client_id];
        let debugger = match body.thread_id {
            Some(thread) => DebuggerView {
                thread_states: before.thread_states.insert(
                    thread,
                    ThreadState::Stopped(body.reason),
                ),
                ..before
            },
            None => before,
        };
        EventOutcome {
            state: state.with_client(client_id, debugger).begun(
                client_id,
                DapOperation::StackTrace,
            ),
            handled: true,
            actions: seq![
                DapAction::FetchStacks {
                    client_id,
                    generation: state.next_generation(client_id, DapOperation::StackTrace),
                    all_threads: body.all_threads_stopped == Some(true),
                    preferred_thread_id: body.thread_id,
                },
                DapAction::SetStatus(DapNote::Stopped(body)),
            ],
        }
    }
}

/// A thread runs on: its calls are no longer of interest, nor are values if it was looked at.
pub open spec fn after_continued<P>(state: DebugView, client_id: u64, thread_id: i64) -> EventOutcome<
    P,
> {
    let begun = state.begun(client_id, DapOperation::StackTrace);
    if !state.has_client(client_id) {
        EventOutcome { state: begun, handled: false, actions: seq![] }
    } else {
        let before = state.clients[client_id];
        EventOutcome {
            state: begun.with_client(
                client_id,
                DebuggerView {
                    thread_states: before.thread_states.insert(thread_id, ThreadState::Running),
                    ..before
                },
            ),
            handled: true,
            actions: if before.thread_id == Some(thread_id) {
                seq![DapAction::ResumeApplication { client_id }, DapAction::ClearInlineValues]
            } else {
                seq![]
            },
        }
    }
}

/// The adapter is ready: it gets the breakpoints.
pub open spec fn after_initialized<P>(state: DebugView, client_id: u64) -> EventOutcome<P> {
    if !state.has_client(client_id) {
        EventOutcome { state, handled: true, actions: seq![] }
    } else {
        EventOutcome {
            state: state.begun(client_id, DapOperation::Configuration),
            handled: true,
            actions: seq![
                DapAction::SetStatus(DapNote::Initialized),
                DapAction::Configure {
                    client_id,
                    generation: state.next_generation(client_id, DapOperation::Configuration),
                },
            ],
        }
    }
}

/// The program has ended: whatever was asked is given up, and the adapter is let go.
pub open spec fn after_terminated<P>(
    state: DebugView,
    client_id: u64,
    restart: Option<Restart<P>>,
) -> EventOutcome<P> {
    EventOutcome {
        state: state.begun(client_id, DapOperation::StackTrace).begun(
            client_id,
            DapOperation::Configuration,
        ).begun(client_id, DapOperation::Termination),
        handled: true,
        actions: if state.has_client(client_id) {
            seq![
                DapAction::Disconnect {
                    client_id,
                    generation: state.next_generation(client_id, DapOperation::Termination),
                    restart_requested: restart == Some(Restart::<P>::Bool(true)),
                    restart,
                },
            ]
        } else {
            seq![]
        },
    }
}

/// What a report does.
pub open spec fn event_outcome<P>(state: DebugView, client_id: u64, event: DapEvent<P>) -> EventOutcome<
    P,
> {
    match event {
        DapEvent::Stopped(body) => after_stopped(state, client_id, body),
        DapEvent::Continued { thread_id } => after_continued(state, client_id, thread_id),
        DapEvent::Thread { thread_id, reason } => EventOutcome {
            state: if state.has_client(client_id) {
                state.with_client(
                    client_id,
                    DebuggerView { thread_id: Some(thread_id), ..state.clients[client_id] },
                )
            } else {
                state
            },
            handled: state.has_client(client_id),
            actions: seq![DapAction::SetStatus(DapNote::Thread { id: thread_id, reason })],
        },
        DapEvent::Breakpoint { reason, breakpoint } => EventOutcome {
            state: DebugView {
                breakpoints: breakpoints::breakpoints_after(state.breakpoints, reason, breakpoint),
                ..state
            },
            handled: true,
            actions: seq![],
        },
        DapEvent::Output { category, output } => if category matches Some(name) && name@
            == "telemetry"@ {
            EventOutcome { state, handled: false, actions: seq![] }
        } else {
            EventOutcome {
                state,
                handled: true,
                actions: seq![DapAction::SetStatus(DapNote::Output { category, output })],
            }
        },
        DapEvent::Initialized => after_initialized(state, client_id),
        DapEvent::Terminated { restart } => after_terminated(state, client_id, restart),
        DapEvent::Exited { exit_code } => EventOutcome {
            state: state.begun(client_id, DapOperation::StackTrace),
            handled: true,
            actions: if exit_code != 0 {
                seq![DapAction::SetError(DapNote::FailedExit { code: exit_code })]
            } else {
                seq![]
            },
        },
        DapEvent::Other => EventOutcome { state, handled: false, actions: seq![] },
    }
}

fn handle_stopped<P>(state: &mut DebugState, client_id: u64, body: StoppedBody) -> (r: (
    bool,
    Vec<DapAction<P>>,
))
    requires
        old(state).wf(),
        old(state)@.has_room(client_id),
    ensures
        final(state).wf(),
        ({
            let after = after_stopped::<P>(old(state)@, client_id, body);
            final(state)@ == after.state && r.0 == after.handled && r.1@ == after.actions
        }),
{
    let ghost before = state@;
    let ghost clients = state.clients@;
    assert(before.can_begin(client_id, DapOperation::StackTrace));
    match state.clients.get_mut(client_id) {
        Some(debugger) => {
            if let Some(thread) = body.thread_id {
                debugger.thread_states.insert(thread, ThreadState::Stopped(body.reason.clone()));
            }
        },
        None => {
            let actions: Vec<DapAction<P>> = Vec::new();
            assert(actions@ =~= Seq::<DapAction<P>>::empty());
            return (false, actions);
        },
    }
    proof {
        dap::lemma_client_views_insert(clients, client_id, state.clients@[client_id]);
        assert(state.clients@ =~= clients.insert(client_id, state.clients@[client_id]));
        let changed = match body.thread_id {
            Some(thread) => DebuggerView {
                thread_states: before.clients[client_id].thread_states.insert(
                    thread,
                    ThreadState::Stopped(body.reason),
                ),
                ..before.clients[client_id]
            },
            None => before.clients[client_id],
        };
        assert(state.clients@[client_id]@ == changed);
        assert(state@ == before.with_client(client_id, changed));
    }
    let generation = state.begin_operation(client_id, DapOperation::StackTrace);
    let all_threads = match body.all_threads_stopped {
        Some(all) => all,
        None => false,
    };
    let mut actions: Vec<DapAction<P>> = Vec::new();
    actions.push(
        DapAction::FetchStacks {
            client_id,
            generation,
            all_threads,
            preferred_thread_id: body.thread_id,
        },
    );
    actions.push(DapAction::SetStatus(DapNote::Stopped(body)));
    assert(actions@ =~= after_stopped::<P>(before, client_id, body).actions);
    (true, actions)
}

fn handle_continued<P>(state: &mut DebugState, client_id: u64, thread_id: i64) -> (r: (
    bool,
    Vec<DapAction<P>>,
))
    requires
        old(state).wf(),
        old(state)@.has_room(client_id),
    ensures
        final(state).wf(),
        ({
            let after = after_continued::<P>(old(state)@, client_id, thread_id);
            final(state)@ == after.state && r.0 == after.handled && r.1@ == after.actions
        }),
{
    let ghost before = state@;
    assert(before.can_begin(client_id, DapOperation::StackTrace));
    let _ = state.begin_operation(client_id, DapOperation::StackTrace);
    let ghost clients = state.clients@;
    let mut actions: Vec<DapAction<P>> = Vec::new();
    match state.clients.get_mut(client_id) {
        Some(debugger) => {
            debugger.thread_states.insert(thread_id, ThreadState::Running);
            let looked_at = match debugger.thread_id {
                Some(id) => id == thread_id,
                None => false,
            };
            if looked_at {
                actions.push(DapAction::ResumeApplication { client_id });
                actions.push(DapAction::ClearInlineValues);
            }
        },
        None => {
            assert(actions@ =~= Seq::<DapAction<P>>::empty());
            return (false, actions);
        },
    }
    proof {
        dap::lemma_client_views_insert(clients, client_id, state.clients@[client_id]);
        assert(state.clients@ =~= clients.insert(client_id, state.clients@[client_id]));
    }
    assert(actions@ =~= after_continued::<P>(before, client_id, thread_id).actions);
    (true, actions)
}

fn handle_thread<P>(state: &mut DebugState, client_id: u64, thread_id: i64, reason: String) -> (r: (
    bool,
    Vec<DapAction<P>>,
))
    requires
        old(state).wf(),
    ensures
        final(state).wf(),
        ({
            let after = event_outcome(
                old(state)@,
                client_id,
                DapEvent::<P>::Thread { thread_id, reason },
            );
            final(state)@ == after.state && r.0 == after.handled && r.1@ == after.actions
        }),
{
    let ghost clients = state.clients@;
    let actions = one_action(DapAction::SetStatus(DapNote::Thread { id: thread_id, reason }));
    match state.clients.get_mut(client_id) {
        Some(debugger) => {
            debugger.thread_id = Some(thread_id);
        },
        None => {
            return (false, actions);
        },
    }
    proof {
        dap::lemma_client_views_insert(clients, client_id, state.clients@[client_id]);
        assert(state.clients@ =~= clients.insert(client_id, state.clients@[client_id]));
    }
    (true, actions)
}

/// The breakpoints that an adapter gets when it is configured, which are what its answers are
/// about.
pub fn breakpoints_to_configure(state: &DebugState) -> (r: Vec<FileBreakpoints>)
    ensures
        breakpoints::file_views(r@) == state@.breakpoints,
{
    copy_files(&state.breakpoints)
}

/// Has an adapter that is ready configured.
pub fn request_configuration<P>(state: &mut DebugState, client_id: u64) -> (r: Vec<DapAction<P>>)
    requires
        old(state).wf(),
        old(state)@.has_room(client_id),
    ensures
        final(state).wf(),
        ({
            let after = after_initialized::<P>(old(state)@, client_id);
            final(state)@ == after.state && r@ == after.actions
        }),
{
    let mut actions: Vec<DapAction<P>> = Vec::new();
    if !state.has_client(client_id) {
        assert(actions@ =~= Seq::<DapAction<P>>::empty());
        return actions;
    }
    assert(state@.can_begin(client_id, DapOperation::Configuration));
    let ghost before = state@;
    let generation = state.begin_operation(client_id, DapOperation::Configuration);
    actions.push(DapAction::SetStatus(DapNote::Initialized));
    actions.push(DapAction::Configure { client_id, generation });
    assert(actions@ =~= after_initialized::<P>(before, client_id).actions);
    actions
}

/// Lets go of an adapter whose program has ended.
pub fn request_termination<P>(state: &mut DebugState, client_id: u64, restart: Option<Restart<P>>) -> (r:
    Vec<DapAction<P>>)
    requires
        old(state).wf(),
        old(state)@.has_room(client_id),
    ensures
        final(state).wf(),
        ({
            let after = after_terminated::<P>(old(state)@, client_id, restart);
            final(state)@ == after.state && r@ == after.actions
        }),
{
    let ghost before = state@;
    assert(before.can_begin(client_id, DapOperation::StackTrace));
    assert(before.can_begin(client_id, DapOperation::Configuration));
    assert(before.can_begin(client_id, DapOperation::Termination));
    let _ = state.begin_operation(client_id, DapOperation::StackTrace);
    let _ = state.begin_operation(client_id, DapOperation::Configuration);
    let generation = state.begin_operation(client_id, DapOperation::Termination);
    let mut actions: Vec<DapAction<P>> = Vec::new();
    if state.has_client(client_id) {
        let restart_requested = match &restart {
            Some(Restart::Bool(wanted)) => *wanted,
            _ => false,
        };
        actions.push(DapAction::Disconnect { client_id, generation, restart_requested, restart });
    }
    assert(actions@ =~= after_terminated::<P>(before, client_id, restart).actions);
    actions
}

/// Takes in a report of an adapter. Says whether anything has changed that shows, and what is to
/// be done.
pub fn handle_event<P>(state: &mut DebugState, client_id: u64, event: DapEvent<P>) -> (r: (
    bool,
    Vec<DapAction<P>>,
))
    requires
        old(state).wf(),
        old(state)@.has_room(client_id),
    ensures
        final(state).wf(),
        ({
            let after = event_outcome(old(state)@, client_id, event);
            final(state)@ == after.state && r.0 == after.handled && r.1@ == after.actions
        }),
{
    let ghost before = state@;
    match event {
        DapEvent::Stopped(body) => handle_stopped(state, client_id, body),
        DapEvent::Continued { thread_id } => handle_continued(state, client_id, thread_id),
        DapEvent::Thread { thread_id, reason } => handle_thread(
            state,
            client_id,
            thread_id,
            reason,
        ),
        DapEvent::Breakpoint { reason, breakpoint } => {
            apply_breakpoint_event(&mut state.breakpoints, reason, breakpoint);
            let actions: Vec<DapAction<P>> = Vec::new();
            assert(actions@ =~= Seq::<DapAction<P>>::empty());
            (true, actions)
        },
        DapEvent::Output { category, output } => {
            let telemetry = match &category {
                Some(name) => same_text(name.as_str(), "telemetry"),
                None => false,
            };
            if telemetry {
                let actions: Vec<DapAction<P>> = Vec::new();
                assert(actions@ =~= Seq::<DapAction<P>>::empty());
                (false, actions)
            } else {
                (
                    true,
                    one_action(DapAction::SetStatus(DapNote::Output { category, output })),
                )
            }
        },
        DapEvent::Initialized => (true, request_configuration(state, client_id)),
        DapEvent::Terminated { restart } => (true, request_termination(state, client_id, restart)),
        DapEvent::Exited { exit_code } => {
            assert(before.can_begin(client_id, DapOperation::StackTrace));
            let _ = state.begin_operation(client_id, DapOperation::StackTrace);
            let mut actions: Vec<DapAction<P>> = Vec::new();
            if exit_code != 0 {
                actions.push(DapAction::SetError(DapNote::FailedExit { code: exit_code }));
            }
            assert(actions@ =~= event_outcome(before, client_id, event).actions);
            (true, actions)
        },
        DapEvent::Other => {
            let actions: Vec<DapAction<P>> = Vec::new();
            assert(actions@ =~= Seq::<DapAction<P>>::empty());
            (false, actions)
        },
    }
}

/// A report about one adapter leaves what is known about the programs of others alone.
pub proof fn law_reports_concern_their_own_adapter<P>(
    state: DebugView,
    client_id: u64,
    event: DapEvent<P>,
    other: u64,
)
    requires
        other != client_id,
    ensures
        ({
            let after = event_outcome(state, client_id, event).state;
            &&& after.clients.dom().contains(other) == state.clients.dom().contains(other)
            &&& after.clients.dom().contains(other) ==> after.clients[other]
                == state.clients[other]
        }),
{
}

/// Once a program runs on or has ended, calls that were asked for before are not taken in.
pub proof fn law_running_on_makes_older_stacks_stale<P>(
    state: DebugView,
    client_id: u64,
    thread_id: i64,
    exit_code: i64,
    restart: Option<Restart<P>>,
    asked: u64,
)
    requires
        state.is_current(client_id, DapOperation::StackTrace, asked),
        asked < u64::MAX,
    ensures
        !event_outcome(state, client_id, DapEvent::<P>::Continued { thread_id }).state.is_current(
            client_id,
            DapOperation::StackTrace,
            asked,
        ),
        !event_outcome(state, client_id, DapEvent::<P>::Exited { exit_code }).state.is_current(
            client_id,
            DapOperation::StackTrace,
            asked,
        ),
        !event_outcome(state, client_id, DapEvent::Terminated { restart }).state.is_current(
            client_id,
            DapOperation::StackTrace,
            asked,
        ),
{
}

/// The frames of the stacks that could be fetched, and what is said of the others.
pub struct FetchedStacks<E> {
    pub stacks: Vec<(i64, E)>,
    pub failed: Vec<i64>,
}

/// Parts the stacks that could be fetched from those that could not, in order.
pub open spec fn fetched<E>(results: Seq<(i64, Option<E>)>) -> Seq<(i64, E)>
    decreases results.len(),
{
    if results.len() == 0 {
        seq![]
    } else {
        match results.last().1 {
            Some(frames) => fetched(results.drop_last()).push((results.last().0, frames)),
            None => fetched(results.drop_last()),
        }
    }
}

pub open spec fn not_fetched<E>(results: Seq<(i64, Option<E>)>) -> Seq<i64>
    decreases results.len(),
{
    if results.len() == 0 {
        seq![]
    } else {
        match results.last().1 {
            Some(_) => not_fetched(results.drop_last()),
            None => not_fetched(results.drop_last()).push(results.last().0),
        }
    }
}

pub fn part_stacks<E>(results: Vec<(i64, Option<E>)>) -> (r: FetchedStacks<E>)
    ensures
        r.stacks@ == fetched(results@),
        r.failed@ == not_fetched(results@),
{
    let mut stacks: Vec<(i64, E)> = Vec::new();
    let mut failed: Vec<i64> = Vec::new();
    let ghost all = results@;
    assert(all.take(0) =~= seq![]);
    for result in it: results
        invariant
            it.seq() == all,
            stacks@ == fetched(all.take(it.index())),
            failed@ == not_fetched(all.take(it.index())),
    {
        assert(all.take(it.index() + 1).drop_last() =~= all.take(it.index()));
        assert(all.take(it.index() + 1).last() == result);
        match result.1 {
            Some(frames) => {
                stacks.push((result.0, frames));
            },
            None => {
                failed.push(result.0);
            },
        }
    }
    assert(all.take(all.len() as int) =~= all);
    FetchedStacks { stacks, failed }
}

/// After a stop the calls are asked for with the number that counts from then on, of all threads
/// if all have stopped, and with the thread that has stopped to be looked at.
pub proof fn law_stops_ask_for_the_calls<P>(state: DebugView, client_id: u64, body: StoppedBody)
    requires
        state.clients.dom().contains(client_id),
    ensures
        ({
            let after = event_outcome(state, client_id, DapEvent::<P>::Stopped(body));
            let key = dap::OperationKey { client_id, operation: DapOperation::StackTrace };
            &&& after.handled
            &&& after.state.operations.dom().contains(key)
            &&& after.actions.len() == 2
            &&& after.actions[0] == (DapAction::<P>::FetchStacks {
                client_id,
                generation: after.state.operations[key],
                all_threads: body.all_threads_stopped == Some(true),
                preferred_thread_id: body.thread_id,
            })
            &&& body.thread_id matches Some(thread)
                ==> after.state.clients[client_id].thread_states.contains_pair(
                thread,
                ThreadState::Stopped(body.reason),
            )
            &&& after.state.clients[client_id].thread_id == state.clients[client_id].thread_id
            &&& after.state.clients[client_id].stack_frames
                == state.clients[client_id].stack_frames
        }),
{
}

/// A thread that runs on is marked so; values go only if it was the one that is looked at.
pub proof fn law_running_threads_are_marked<P>(state: DebugView, client_id: u64, thread_id: i64)
    requires
        state.clients.dom().contains(client_id),
    ensures
        ({
            let after = event_outcome(state, client_id, DapEvent::<P>::Continued { thread_id });
            &&& after.state.clients[client_id].thread_states.contains_pair(
                thread_id,
                ThreadState::Running,
            )
            &&& state.clients[client_id].thread_id == Some(thread_id) ==> after.actions == seq![
                DapAction::<P>::ResumeApplication { client_id },
                DapAction::ClearInlineValues,
            ]
            &&& state.clients[client_id].thread_id != Some(thread_id) ==> after.actions.len() == 0
        }),
{
}

/// Stacks that could be fetched are taken in order, and the threads of the others named, in order
/// too; none is both.
pub proof fn law_each_stack_is_fetched_or_not<E>(
    results: Seq<(i64, Option<E>)>,
    thread: i64,
    frames: E,
)
    ensures
        fetched(Seq::<(i64, Option<E>)>::empty()).len() == 0,
        not_fetched(Seq::<(i64, Option<E>)>::empty()).len() == 0,
        fetched(results.push((thread, Some(frames)))) == fetched(results).push((thread, frames)),
        not_fetched(results.push((thread, Some(frames)))) == not_fetched(results),
        fetched(results.push((thread, None))) == fetched(results),
        not_fetched(results.push((thread, None))) == not_fetched(results).push(thread),
{
    assert(results.push((thread, Some(frames))).drop_last() =~= results);
    assert(results.push((thread, None)).drop_last() =~= results);
}

/// An adapter that is ready gets the breakpoints under the number that counts from then on; when
/// a program has ended the adapter is let go, and whatever was asked before no longer counts.
pub proof fn law_ended_programs_are_let_go<P>(
    state: DebugView,
    client_id: u64,
    restart: Option<Restart<P>>,
    exit_code: i64,
)
    requires
        state.clients.dom().contains(client_id),
    ensures
        ({
            let ready = event_outcome(state, client_id, DapEvent::<P>::Initialized);
            let key = dap::OperationKey { client_id, operation: DapOperation::Configuration };
            &&& ready.actions.last() == (DapAction::<P>::Configure {
                client_id,
                generation: ready.state.operations[key],
            })
            &&& ready.state.clients == state.clients
        }),
        ({
            let ended = event_outcome(state, client_id, DapEvent::Terminated { restart });
            let key = dap::OperationKey { client_id, operation: DapOperation::Termination };
            &&& ended.actions == seq![
                DapAction::Disconnect {
                    client_id,
                    generation: ended.state.operations[key],
                    restart_requested: restart == Some(Restart::<P>::Bool(true)),
                    restart,
                },
            ]
            &&& ended.state.clients == state.clients
        }),
        ({
            let exited = event_outcome(state, client_id, DapEvent::<P>::Exited { exit_code });
            &&& exit_code == 0 ==> exited.actions.len() == 0
            &&& exit_code != 0 ==> exited.actions == seq![
                DapAction::<P>::SetError(DapNote::FailedExit { code: exit_code }),
            ]
        }),
{
}

/// What is of no interest changes nothing and says nothing; what a program prints is said, and
/// what an adapter counts is not.
pub proof fn law_output_is_said<P>(
    state: DebugView,
    client_id: u64,
    category: Option<String>,
    output: String,
)
    ensures
        ({
            let other = event_outcome(state, client_id, DapEvent::<P>::Other);
            &&& other.state == state
            &&& !other.handled
            &&& other.actions.len() == 0
        }),
        ({
            let printed = event_outcome(
                state,
                client_id,
                DapEvent::<P>::Output { category, output },
            );
            let counts = category is Some && category->0@ == "telemetry"@;
            &&& printed.state == state
            &&& printed.handled == !counts
            &&& counts ==> printed.actions.len() == 0
            &&& !counts ==> printed.actions == seq![
                DapAction::<P>::SetStatus(DapNote::Output { category, output }),
            ]
        }),
{
}

/// A thread that is heard of is the one that is looked at, and is told; nothing else changes.
pub proof fn law_heard_of_threads_are_looked_at<P>(
    state: DebugView,
    client_id: u64,
    thread_id: i64,
    reason: String,
    other: u64,
)
    requires
        state.clients.dom().contains(client_id),
        other != client_id,
    ensures
        ({
            let heard = event_outcome(
                state,
                client_id,
                DapEvent::<P>::Thread { thread_id, reason },
            );
            &&& heard.state.clients[client_id].thread_id == Some(thread_id)
            &&& heard.state.clients[client_id].stack_frames == state.clients[client_id].stack_frames
            &&& state.clients.dom().contains(other) ==> heard.state.clients[other]
                == state.clients[other]
            &&& heard.state.active == state.active
            &&& heard.handled
            &&& heard.actions == seq![
                DapAction::<P>::SetStatus(DapNote::Thread { id: thread_id, reason }),
            ]
        }),
{
}

} // verus!
