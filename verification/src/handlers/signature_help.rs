//! When signatures of functions are asked for.

use vstd::prelude::*;

use crate::handlers::debounce;
use crate::handlers::debounce::{deadline_after, due};
use crate::text;
use crate::text::{chars_end_with, chars_of};

verus! {

/// How long typing rests before signatures are asked for, in milliseconds.
pub const TIMEOUT: u64 = 120;

/// Whether signatures are shown.
#[derive(Debug, Clone, Copy, PartialEq, Eq, Structural)]
pub enum State {
    Open,
    Closed,
    /// They were asked for.
    Pending,
}

#[derive(Debug, Clone, Copy, PartialEq, Eq, Structural)]
pub enum SignatureHelpInvoked {
    Automatic,
    /// Somebody asked for them.
    Manual,
}

/// Why a server is asked.
#[derive(Debug, Clone, Copy, PartialEq, Eq, Structural)]
pub enum TriggerKind {
    Invoked,
    TriggerCharacter,
    ContentChange,
}

#[derive(Debug, Clone, Copy, PartialEq, Eq, Structural)]
pub enum SignatureHelpEvent {
    /// Somebody asked.
    Invoked,
    /// A character was typed behind which signatures are of interest.
    Trigger,
    /// The text or the cursor has changed.
    ReTrigger,
    Cancel,
    RequestComplete { request: u64, open: bool },
}

/// A question to a server.
#[derive(Debug, Clone, Copy, PartialEq, Eq, Structural)]
pub struct SignatureRequest {
    pub invoked: SignatureHelpInvoked,
    pub request: u64,
    pub trigger_kind: TriggerKind,
    pub is_retrigger: bool,
}

/// The numbers of questions; zero is never one.
#[derive(Debug, Clone, Copy, PartialEq, Eq, Structural)]
pub struct RequestIds {
    pub next: u64,
}

impl RequestIds {
    pub open spec fn upcoming(self) -> u64 {
        if self.next == 0 {
            1
        } else {
            self.next
        }
    }

    pub open spec fn after(self) -> RequestIds {
        RequestIds {
            next: if self.upcoming() == u64::MAX {
                0
            } else {
                (self.upcoming() + 1) as u64
            },
        }
    }

    pub fn new() -> (r: RequestIds)
        ensures
            r.next == 1,
    {
        RequestIds { next: 1 }
    }

    /// The next number.
    pub fn next_request(&mut self) -> (r: u64)
        ensures
            r == old(self).upcoming(),
            r != 0,
            *final(self) == old(self).after(),
    {
        if self.next == 0 {
            self.next = 1;
        }
        let request: u64 = self.next;
        self.next = self.next.wrapping_add(1);
        request
    }
}

#[derive(Debug, Clone, Copy, PartialEq, Eq, Structural)]
pub struct SignatureHelpHandler {
    pub trigger: Option<SignatureHelpInvoked>,
    pub state: State,
    /// The question that is answered next.
    pub request: Option<u64>,
    /// The question that can be called off.
    pub cancel: Option<u64>,
    /// The question that rests.
    pub pending_task: Option<SignatureRequest>,
    pub deadline: Option<u64>,
    pub ids: RequestIds,
}

/// What an event leads to.
#[derive(Debug, Clone, Copy, PartialEq, Eq, Structural)]
pub struct SignatureStep {
    /// The question that is called off.
    pub cancel: Option<u64>,
    /// The question that is put at once.
    pub send: Option<SignatureRequest>,
}

pub open spec fn no_step() -> SignatureStep {
    SignatureStep { cancel: None, send: None }
}

impl SignatureHelpHandler {
    pub fn new() -> (r: SignatureHelpHandler)
        ensures
            r.trigger is None,
            r.state == State::Closed,
            r.request is None,
            r.cancel is None,
            r.pending_task is None,
            r.deadline is None,
            r.ids.next == 1,
    {
        SignatureHelpHandler {
            trigger: None,
            state: State::Closed,
            request: None,
            cancel: None,
            pending_task: None,
            deadline: None,
            ids: RequestIds::new(),
        }
    }

    /// A question takes the place of the one before, at once or after a rest.
    pub open spec fn dispatched(
        self,
        invoked: SignatureHelpInvoked,
        trigger_kind: TriggerKind,
        is_retrigger: bool,
        delay: bool,
        now: u64,
    ) -> (SignatureHelpHandler, SignatureStep) {
        let request = self.ids.upcoming();
        let task = SignatureRequest { invoked, request, trigger_kind, is_retrigger };
        (
            SignatureHelpHandler {
                state: State::Pending,
                request: Some(request),
                cancel: Some(request),
                pending_task: if delay {
                    Some(task)
                } else {
                    None
                },
                deadline: if delay {
                    Some(debounce::later(now, TIMEOUT))
                } else {
                    None
                },
                ids: self.ids.after(),
                ..self
            },
            SignatureStep {
                cancel: self.cancel,
                send: if delay {
                    None
                } else {
                    Some(task)
                },
            },
        )
    }

    fn dispatch_request(
        &mut self,
        invoked: SignatureHelpInvoked,
        trigger_kind: TriggerKind,
        is_retrigger: bool,
        delay: bool,
        now: u64,
    ) -> (r: SignatureStep)
        ensures
            (*final(self), r) == old(self).dispatched(
                invoked,
                trigger_kind,
                is_retrigger,
                delay,
                now,
            ),
    {
        let request = self.ids.next_request();
        let cancel = self.cancel;
        self.cancel = Some(request);
        self.request = Some(request);
        self.state = State::Pending;
        let task = SignatureRequest { invoked, request, trigger_kind, is_retrigger };
        if delay {
            self.pending_task = Some(task);
            self.deadline = Some(deadline_after(now, TIMEOUT));
            SignatureStep { cancel, send: None }
        } else {
            self.pending_task = None;
            self.deadline = None;
            SignatureStep { cancel, send: Some(task) }
        }
    }

    /// Who the next question is for: whoever asked, once.
    pub open spec fn invoker(self) -> SignatureHelpInvoked {
        match self.trigger {
            Some(invoked) => invoked,
            None => SignatureHelpInvoked::Automatic,
        }
    }

    /// What an event does.
    pub open spec fn after_event(self, event: SignatureHelpEvent, now: u64) -> (
        SignatureHelpHandler,
        SignatureStep,
    ) {
        match event {
            SignatureHelpEvent::Invoked => SignatureHelpHandler {
                trigger: Some(SignatureHelpInvoked::Manual),
                state: State::Closed,
                ..self
            }.dispatched(SignatureHelpInvoked::Manual, TriggerKind::Invoked, false, false, now),
            SignatureHelpEvent::Trigger => SignatureHelpHandler {
                trigger: None,
                ..self
            }.dispatched(
                self.invoker(),
                TriggerKind::TriggerCharacter,
                self.state != State::Closed,
                true,
                now,
            ),
            SignatureHelpEvent::ReTrigger => if self.state == State::Closed {
                (self, no_step())
            } else {
                SignatureHelpHandler { trigger: None, ..self }.dispatched(
                    self.invoker(),
                    TriggerKind::ContentChange,
                    true,
                    true,
                    now,
                )
            },
            SignatureHelpEvent::Cancel => (
                SignatureHelpHandler {
                    state: State::Closed,
                    pending_task: None,
                    deadline: None,
                    cancel: None,
                    request: None,
                    ..self
                },
                SignatureStep { cancel: self.cancel, send: None },
            ),
            SignatureHelpEvent::RequestComplete { request, open } => (
                if self.request == Some(request) {
                    SignatureHelpHandler {
                        state: if open {
                            State::Open
                        } else {
                            State::Closed
                        },
                        cancel: None,
                        request: None,
                        ..self
                    }
                } else {
                    self
                },
                no_step(),
            ),
        }
    }

    /// Takes in an event.
    pub fn event(&mut self, event: SignatureHelpEvent, now: u64) -> (r: SignatureStep)
        ensures
            (*final(self), r) == old(self).after_event(event, now),
    {
        match event {
            SignatureHelpEvent::Invoked => {
                self.trigger = Some(SignatureHelpInvoked::Manual);
                self.state = State::Closed;
                self.dispatch_request(
                    SignatureHelpInvoked::Manual,
                    TriggerKind::Invoked,
                    false,
                    false,
                    now,
                )
            },
            SignatureHelpEvent::Trigger => {
                let is_retrigger = self.state != State::Closed;
                let invoked = match self.trigger {
                    Some(invoked) => invoked,
                    None => SignatureHelpInvoked::Automatic,
                };
                self.trigger = None;
                self.dispatch_request(
                    invoked,
                    TriggerKind::TriggerCharacter,
                    is_retrigger,
                    true,
                    now,
                )
            },
            SignatureHelpEvent::ReTrigger => {
                if self.state == State::Closed {
                    return SignatureStep { cancel: None, send: None };
                }
                let invoked = match self.trigger {
                    Some(invoked) => invoked,
                    None => SignatureHelpInvoked::Automatic,
                };
                self.trigger = None;
                self.dispatch_request(invoked, TriggerKind::ContentChange, true, true, now)
            },
            SignatureHelpEvent::Cancel => {
                self.state = State::Closed;
                self.pending_task = None;
                self.deadline = None;
                let cancel = self.cancel;
                self.cancel = None;
                self.request = None;
                SignatureStep { cancel, send: None }
            },
            SignatureHelpEvent::RequestComplete { request, open } => {
                let matching = match self.request {
                    Some(waiting) => waiting == request,
                    None => false,
                };
                if matching {
                    self.state = if open {
                        State::Open
                    } else {
                        State::Closed
                    };
                    self.cancel = None;
                    self.request = None;
                }
                SignatureStep { cancel: None, send: None }
            },
        }
    }

    /// Once the rest is over, the question that is put.
    pub fn tick(&mut self, now: u64) -> (r: Option<SignatureRequest>)
        ensures
            if debounce::is_due(old(self).deadline, now) {
                &&& r == old(self).pending_task
                &&& *final(self) == (SignatureHelpHandler {
                    pending_task: None,
                    deadline: None,
                    ..*old(self)
                })
            } else {
                r is None && *final(self) == *old(self)
            },
    {
        if !due(self.deadline, now) {
            return None;
        }
        self.deadline = None;
        let task = self.pending_task;
        self.pending_task = None;
        task
    }
}

/// After signatures were called off, nothing is put any more and no answer changes anything.
pub proof fn law_calling_off_is_final(
    handler: SignatureHelpHandler,
    now: u64,
    then: u64,
    request: u64,
    open: bool,
)
    ensures
        ({
            let after = handler.after_event(SignatureHelpEvent::Cancel, now).0;
            &&& !debounce::is_due(after.deadline, then)
            &&& after.pending_task is None
            &&& after.after_event(SignatureHelpEvent::RequestComplete { request, open }, then) == (
                after,
                no_step(),
            )
            &&& after.after_event(SignatureHelpEvent::ReTrigger, then) == (after, no_step())
        }),
{
}

/// Only the answer to the last question counts. An event that puts one is somebody who asks, a
/// character that was typed, or a change while signatures are shown or asked for.
pub proof fn law_only_the_last_answer_counts(
    handler: SignatureHelpHandler,
    event: SignatureHelpEvent,
    now: u64,
    older: u64,
    open: bool,
)
    requires
        event == SignatureHelpEvent::Invoked || event == SignatureHelpEvent::Trigger || (event
            == SignatureHelpEvent::ReTrigger && handler.state != State::Closed),
        older != handler.ids.upcoming(),
    ensures
        ({
            let after = handler.after_event(event, now).0;
            after.after_event(SignatureHelpEvent::RequestComplete { request: older, open }, now).0
                == after
        }),
{
}

/// The text before the cursor ends with one of the characters.
pub open spec fn ends_with_trigger(before: Seq<char>, triggers: Seq<String>) -> bool {
    exists|i: int| 0 <= i < triggers.len() && text::ends_with(before, (#[trigger] triggers[i])@)
}

/// Whether a typed character makes signatures be asked for: if that is switched on, and the first
/// server that offers them has such a character and the text before the cursor ends with it.
pub fn signature_help_post_insert_char_hook(
    auto_signature_help: bool,
    trigger_characters: Option<&Vec<String>>,
    before_cursor: &[char],
) -> (r: bool)
    ensures
        r == (auto_signature_help && trigger_characters is Some && ends_with_trigger(
            before_cursor@,
            trigger_characters->0@,
        )),
{
    if !auto_signature_help {
        return false;
    }
    match trigger_characters {
        Some(triggers) => {
            let mut i: usize = 0;
            while i < triggers.len()
                invariant
                    i <= triggers@.len(),
                    auto_signature_help,
                    trigger_characters == Some(triggers),
                    forall|j: int|
                        0 <= j < i ==> !text::ends_with(
                            before_cursor@,
                            (#[trigger] triggers@[j])@,
                        ),
                decreases triggers@.len() - i,
            {
                let trigger = chars_of(triggers[i].as_str());
                if chars_end_with(before_cursor, trigger.as_slice()) {
                    assert(text::ends_with(before_cursor@, triggers@[i as int]@));
                    return true;
                }
                i += 1;
            }
            false
        },
        None => false,
    }
}

/// Whether a change of the text makes signatures be asked for again.
pub fn retriggers_on_change(auto_signature_help: bool, ghost_transaction: bool) -> (r: bool)
    ensures
        r == (auto_signature_help && !ghost_transaction),
{
    auto_signature_help && !ghost_transaction
}

/// Asking by hand is sent at once and starts over; what typing asks for rests first. Either way
/// the question before is called off, and only the new one counts.
pub proof fn law_new_questions_replace_older_ones(handler: SignatureHelpHandler, now: u64)
    requires
        now <= u64::MAX - 120,
    ensures
        ({
            let (after, step) = handler.after_event(SignatureHelpEvent::Invoked, now);
            &&& step.cancel == handler.cancel
            &&& step.send matches Some(asked) && asked.invoked == SignatureHelpInvoked::Manual
                && asked.trigger_kind == TriggerKind::Invoked && !asked.is_retrigger
                && after.request == Some(asked.request)
            &&& after.cancel == after.request
            &&& after.deadline is None && after.pending_task is None
            &&& after.state == State::Pending
        }),
        ({
            let (after, step) = handler.after_event(SignatureHelpEvent::Trigger, now);
            &&& step.cancel == handler.cancel
            &&& step.send is None
            &&& after.pending_task matches Some(asked) && asked.trigger_kind
                == TriggerKind::TriggerCharacter && asked.is_retrigger == (handler.state
                != State::Closed) && after.request == Some(asked.request)
            &&& after.deadline == Some((now + 120) as u64)
            &&& after.cancel == after.request
        }),
        ({
            let (after, step) = handler.after_event(SignatureHelpEvent::ReTrigger, now);
            &&& handler.state == State::Closed ==> after == handler && step.cancel is None
                && step.send is None
            &&& handler.state != State::Closed ==> step.cancel == handler.cancel && (
            after.pending_task matches Some(asked) && asked.is_retrigger && asked.trigger_kind
                == TriggerKind::ContentChange)
        }),
{
}

/// An answer that counts opens the help or closes it, and ends its question.
pub proof fn law_answers_open_or_close(handler: SignatureHelpHandler, request: u64, open: bool, now: u64)
    requires
        handler.request == Some(request),
    ensures
        ({
            let (after, step) = handler.after_event(
                SignatureHelpEvent::RequestComplete { request, open },
                now,
            );
            &&& open ==> after.state == State::Open
            &&& !open ==> after.state == State::Closed
            &&& after.request is None && after.cancel is None
            &&& step.cancel is None && step.send is None
        }),
{
}

/// Questions are numbered one after the other, and never with nothing.
pub proof fn law_questions_are_numbered_in_turn(ids: RequestIds)
    ensures
        ids.upcoming() != 0,
        ids.upcoming() < u64::MAX ==> ids.after().upcoming() == ids.upcoming() + 1,
        ids.after().upcoming() != ids.upcoming(),
{
}

/// Any one of the triggers is enough, as long as it stands directly before the cursor.
pub proof fn law_any_trigger_is_enough(before: Seq<char>, triggers: Seq<String>, trigger: String)
    ensures
        !ends_with_trigger(before, Seq::<String>::empty()),
        ends_with_trigger(before, triggers.push(trigger)) <==> ends_with_trigger(before, triggers)
            || text::ends_with(before, trigger@),
        ends_with_trigger(before + trigger@, triggers.push(trigger)),
{
    let more = triggers.push(trigger);
    assert(more[triggers.len() as int] == trigger);
    assert((before + trigger@).skip(before.len() as int) =~= trigger@);
    assert(text::ends_with(before + trigger@, more[triggers.len() as int]@));
    if ends_with_trigger(before, triggers) {
        let i = choose|i: int|
            0 <= i < triggers.len() && text::ends_with(before, (#[trigger] triggers[i])@);
        assert(more[i] == triggers[i]);
    }
    if ends_with_trigger(before, more) {
        let i = choose|i: int|
            0 <= i < more.len() && text::ends_with(before, (#[trigger] more[i])@);
        if i < triggers.len() {
            assert(triggers[i] == more[i]);
        }
    }
}

} // verus!
