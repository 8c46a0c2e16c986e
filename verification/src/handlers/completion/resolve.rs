//! Completing the completions that somebody looks at.

use vstd::prelude::*;

use crate::handlers::debounce;
use crate::handlers::debounce::{deadline_after, due};

verus! {

/// How long somebody looks at a completion before it is completed, in milliseconds.
pub const RESOLVE_DELAY: u64 = 150;

/// A box for one request. A newer request takes the place of the older.
#[derive(Debug)]
pub struct LatestRequest<T> {
    pub value: Option<T>,
    pub cancel_requested: bool,
}

impl<T> Default for LatestRequest<T> {
    fn default() -> (r: Self)
        ensures
            r == (LatestRequest::<T> { value: None, cancel_requested: false }),
    {
        LatestRequest { value: None, cancel_requested: false }
    }
}

impl<T> LatestRequest<T> {
    pub fn replace(&mut self, value: T)
        ensures
            *final(self) == (LatestRequest { value: Some(value), ..*old(self) }),
    {
        self.value = Some(value);
    }

    /// Takes the request back, and whatever was asked for before.
    pub fn cancel(&mut self)
        ensures
            *final(self) == (LatestRequest::<T> { value: None, cancel_requested: true }),
    {
        self.value = None;
        self.cancel_requested = true;
    }

    /// Whether everything was taken back, and what was asked for after that.
    pub fn take(&mut self) -> (r: (bool, Option<T>))
        ensures
            r == (old(self).cancel_requested, old(self).value),
            *final(self) == (LatestRequest::<T> { value: None, cancel_requested: false }),
    {
        let cancel_requested = self.cancel_requested;
        self.cancel_requested = false;
        (cancel_requested, self.value.take())
    }
}

/// What a completion has that is often left out.
#[derive(Debug, Clone, Copy, PartialEq, Eq, Structural)]
pub struct ItemDetails {
    /// How many bytes of documentation, if there is any at all.
    pub documentation: Option<usize>,
    pub detail: Option<usize>,
    /// How many further edits.
    pub additional_text_edits: Option<usize>,
}

pub open spec fn present(count: Option<usize>) -> bool {
    count matches Some(n) && n > 0
}

/// Nothing is missing. What is there but empty counts as missing: some servers leave things out
/// that way.
pub open spec fn is_complete(details: ItemDetails) -> bool {
    present(details.documentation) && present(details.detail) && present(
        details.additional_text_edits,
    )
}

fn is_present(count: Option<usize>) -> (r: bool)
    ensures
        r == present(count),
{
    match count {
        Some(n) => n > 0,
        None => false,
    }
}

/// What is done with a completion that somebody looks at.
#[derive(Debug, Clone, Copy, PartialEq, Eq, Structural)]
pub enum ResolveDecision {
    /// Nothing: it is complete already, or is being completed.
    Nothing,
    /// It counts as complete from now on.
    MarkResolved,
    /// Its server is asked for the rest.
    Request,
}

/// What is done with a completion that somebody looks at.
pub fn ensure_item_resolved(
    resolved: bool,
    details: ItemDetails,
    already_requested: bool,
    server_exists: bool,
    server_resolves: bool,
) -> (r: ResolveDecision)
    ensures
        r == if resolved {
            ResolveDecision::Nothing
        } else if is_complete(details) {
            ResolveDecision::MarkResolved
        } else if already_requested {
            ResolveDecision::Nothing
        } else if server_exists && server_resolves {
            ResolveDecision::Request
        } else {
            ResolveDecision::MarkResolved
        },
{
    if resolved {
        return ResolveDecision::Nothing;
    }
    if is_present(details.documentation) && is_present(details.detail) && is_present(
        details.additional_text_edits,
    ) {
        return ResolveDecision::MarkResolved;
    }
    if already_requested {
        return ResolveDecision::Nothing;
    }
    if server_exists && server_resolves {
        ResolveDecision::Request
    } else {
        ResolveDecision::MarkResolved
    }
}

/// What waits and what is under way. Completions are told apart by numbers.
#[derive(Debug, Clone, Copy, PartialEq, Eq, Structural)]
pub struct ResolveTimeout {
    pub next_request: Option<u64>,
    pub in_flight: Option<u64>,
    pub deadline: Option<u64>,
}

/// What is done.
#[derive(Debug, Clone, Copy, PartialEq, Eq, Structural)]
pub struct ResolveStep {
    /// The question under way that is called off.
    pub cancel: Option<u64>,
    /// The question that is put.
    pub start: Option<u64>,
}

impl ResolveTimeout {
    /// A request joins: one that waits already goes on waiting, one that is under way needs no
    /// other, and any other takes the place of what waits.
    pub open spec fn after_resolve(self, item: u64, now: u64) -> ResolveTimeout {
        if self.next_request == Some(item) {
            self
        } else if self.in_flight == Some(item) {
            ResolveTimeout { next_request: None, deadline: None, ..self }
        } else {
            ResolveTimeout {
                next_request: Some(item),
                deadline: Some(debounce::later(now, RESOLVE_DELAY)),
                ..self
            }
        }
    }

    pub open spec fn cancelled(self) -> ResolveTimeout {
        ResolveTimeout { next_request: None, in_flight: None, deadline: None }
    }

    pub fn new() -> (r: ResolveTimeout)
        ensures
            r == (ResolveTimeout { next_request: None, in_flight: None, deadline: None }),
    {
        ResolveTimeout { next_request: None, in_flight: None, deadline: None }
    }

    pub fn handle_resolve(&mut self, item: u64, now: u64)
        ensures
            *final(self) == old(self).after_resolve(item, now),
    {
        let waits = match self.next_request {
            Some(other) => other == item,
            None => false,
        };
        if waits {
            return;
        }
        let under_way = match self.in_flight {
            Some(other) => other == item,
            None => false,
        };
        if under_way {
            self.next_request = None;
            self.deadline = None;
            return;
        }
        self.next_request = Some(item);
        self.deadline = Some(deadline_after(now, RESOLVE_DELAY));
    }

    /// Puts the question that waits; the one under way is called off.
    pub fn start(&mut self) -> (r: ResolveStep)
        ensures
            match old(self).next_request {
                Some(item) => {
                    &&& r == (ResolveStep { cancel: old(self).in_flight, start: Some(item) })
                    &&& *final(self) == (ResolveTimeout {
                        next_request: None,
                        in_flight: Some(item),
                        ..*old(self)
                    })
                },
                None => {
                    &&& r == (ResolveStep { cancel: None, start: None })
                    &&& *final(self) == *old(self)
                },
            },
    {
        match self.next_request {
            Some(item) => {
                let cancel = self.in_flight;
                self.next_request = None;
                self.in_flight = Some(item);
                ResolveStep { cancel, start: Some(item) }
            },
            None => ResolveStep { cancel: None, start: None },
        }
    }

    /// Gives everything up.
    pub fn cancel(&mut self) -> (r: ResolveStep)
        ensures
            *final(self) == old(self).cancelled(),
            r == (ResolveStep { cancel: old(self).in_flight, start: None }),
    {
        let cancel = self.in_flight;
        self.next_request = None;
        self.deadline = None;
        self.in_flight = None;
        ResolveStep { cancel, start: None }
    }

    /// Takes in what is in the box: first that everything was taken back, then the request.
    pub fn drain_inbox(&mut self, inbox: &mut LatestRequest<u64>, now: u64) -> (r: ResolveStep)
        ensures
            *final(inbox) == (LatestRequest::<u64> { value: None, cancel_requested: false }),
            ({
                let before = if old(inbox).cancel_requested {
                    old(self).cancelled()
                } else {
                    *old(self)
                };
                *final(self) == match old(inbox).value {
                    Some(item) => before.after_resolve(item, now),
                    None => before,
                }
            }),
            r == (ResolveStep {
                cancel: if old(inbox).cancel_requested {
                    old(self).in_flight
                } else {
                    None
                },
                start: None,
            }),
    {
        let (cancel_requested, request): (bool, Option<u64>) = inbox.take();
        let step = if cancel_requested {
            self.cancel()
        } else {
            ResolveStep { cancel: None, start: None }
        };
        if let Some(item) = request {
            self.handle_resolve(item, now);
        }
        step
    }

    /// Once the rest is over, the question that waits is put.
    pub fn tick(&mut self, now: u64) -> (r: ResolveStep)
        ensures
            if debounce::is_due(old(self).deadline, now) {
                match old(self).next_request {
                    Some(item) => {
                        &&& r == (ResolveStep { cancel: old(self).in_flight, start: Some(item) })
                        &&& *final(self) == (ResolveTimeout {
                            next_request: None,
                            in_flight: Some(item),
                            deadline: None,
                        })
                    },
                    None => r == (ResolveStep { cancel: None, start: None }) && *final(self) == (
                    ResolveTimeout { deadline: None, ..*old(self) }),
                }
            } else {
                r == (ResolveStep { cancel: None, start: None }) && *final(self) == *old(self)
            },
    {
        if !due(self.deadline, now) {
            return ResolveStep { cancel: None, start: None };
        }
        self.deadline = None;
        self.start()
    }
}

/// A completion is never asked for twice in a row: neither while it waits nor while it is under
/// way does another request for it put a new question.
pub proof fn law_one_question_per_completion(timeout: ResolveTimeout, item: u64, now: u64, then: u64)
    requires
        timeout.in_flight == Some(item) || timeout.next_request == Some(item),
    ensures
        ({
            let after = timeout.after_resolve(item, now);
            &&& after.in_flight == timeout.in_flight
            &&& after.next_request == Some(item) ==> after == timeout
            &&& timeout.in_flight == Some(item) && timeout.next_request != Some(item)
                ==> after.next_request is None && !debounce::is_due(after.deadline, then)
        }),
{
}

/// A completion that a server proposed.
#[derive(Debug)]
pub struct LspCompletionItem<I> {
    pub item: I,
    /// The server.
    pub provider: u64,
    /// Whether nothing is missing from it any more.
    pub resolved: bool,
}

/// What takes the place of a completion whose server was asked for the rest. Also where that
/// failed nothing counts as missing any more, so that it is not asked for again.
pub fn resolved_item<I, E>(previous: LspCompletionItem<I>, answer: Result<I, E>) -> (r:
    LspCompletionItem<I>)
    ensures
        r == match answer {
            Ok(item) => LspCompletionItem { item, resolved: true, ..previous },
            Err(_) => LspCompletionItem { resolved: true, ..previous },
        },
{
    let LspCompletionItem { item: known, provider, .. } = previous;
    match answer {
        Ok(item) => LspCompletionItem { item, provider, resolved: true },
        Err(_) => LspCompletionItem { item: known, provider, resolved: true },
    }
}

/// Details are asked for after a rest, for what was chosen last; an item that is complete has all
/// three of them.
pub proof fn law_the_last_choice_is_asked_about(timeout: ResolveTimeout, item: u64, now: u64)
    requires
        now <= u64::MAX - 150,
        timeout.next_request != Some(item),
        timeout.in_flight != Some(item),
    ensures
        timeout.after_resolve(item, now).next_request == Some(item),
        timeout.after_resolve(item, now).deadline == Some((now + 150) as u64),
        timeout.after_resolve(item, now).in_flight == timeout.in_flight,
        timeout.cancelled().next_request is None,
        timeout.cancelled().in_flight is None,
        timeout.cancelled().deadline is None,
{
}

/// An item is complete exactly if nothing of it is missing or empty.
pub proof fn law_complete_items_lack_nothing(details: ItemDetails)
    ensures
        is_complete(details) <==> (details.documentation matches Some(n) && n > 0)
            && (details.detail matches Some(n) && n > 0)
            && (details.additional_text_edits matches Some(n) && n > 0),
{
}

} // verus!
