//! Saving documents a while after they have changed.

use vstd::prelude::*;

use crate::handlers::debounce;
use crate::handlers::debounce::{deadline_after, due};

verus! {

/// What has to do with saving.
#[derive(Debug, Clone, Copy, PartialEq, Eq, Structural)]
pub enum AutoSaveEvent {
    DocumentChanged { save_after: u64 },
    LeftInsertMode,
}

#[derive(Debug, Clone, Copy, PartialEq, Eq, Structural)]
pub struct AutoSaveHandler {
    /// Whether saving was put off because text was being typed in.
    pub save_pending: bool,
    /// Whether documents have changed that rest before they are saved.
    pub armed: bool,
    pub deadline: Option<u64>,
}

/// What an event does.
pub open spec fn after_event(handler: AutoSaveHandler, event: AutoSaveEvent, now: u64) -> AutoSaveHandler {
    match event {
        AutoSaveEvent::DocumentChanged { save_after } => AutoSaveHandler {
            armed: true,
            deadline: Some(debounce::later(now, save_after)),
            ..handler
        },
        AutoSaveEvent::LeftInsertMode => handler,
    }
}

/// An event asks for saving at once: only when typing is over, if saving was put off and nothing
/// rests that would be saved anyway.
pub open spec fn saves_at_once(handler: AutoSaveHandler, event: AutoSaveEvent) -> bool {
    event == AutoSaveEvent::LeftInsertMode && !handler.armed && handler.save_pending
}

impl AutoSaveHandler {
    /// A deadline is there while documents rest.
    pub open spec fn wf(self) -> bool {
        self.armed == (self.deadline is Some)
    }

    pub fn new() -> (r: AutoSaveHandler)
        ensures
            r == (AutoSaveHandler { save_pending: false, armed: false, deadline: None }),
            r.wf(),
    {
        AutoSaveHandler { save_pending: false, armed: false, deadline: None }
    }

    /// Takes in an event; says whether to save now.
    pub fn event(&mut self, event: AutoSaveEvent, now: u64) -> (save: bool)
        ensures
            *final(self) == after_event(*old(self), event, now),
            save == saves_at_once(*old(self), event),
            old(self).wf() ==> final(self).wf(),
    {
        match event {
            AutoSaveEvent::DocumentChanged { save_after } => {
                self.armed = true;
                self.deadline = Some(deadline_after(now, save_after));
                false
            },
            AutoSaveEvent::LeftInsertMode => !self.armed && self.save_pending,
        }
    }

    /// Once documents have rested, it is time to save.
    pub fn tick(&mut self, now: u64) -> (save: bool)
        ensures
            save == debounce::is_due(old(self).deadline, now),
            *final(self) == if save {
                AutoSaveHandler { armed: false, deadline: None, ..*old(self) }
            } else {
                *old(self)
            },
            old(self).wf() ==> final(self).wf(),
    {
        if due(self.deadline, now) {
            self.deadline = None;
            self.armed = false;
            true
        } else {
            false
        }
    }

    /// Notes whether saving was put off.
    pub fn set_pending(&mut self, pending: bool)
        ensures
            *final(self) == (AutoSaveHandler { save_pending: pending, ..*old(self) }),
    {
        self.save_pending = pending;
    }
}

/// A change is saved when it has rested, and not before.
pub proof fn law_changes_are_saved_after_resting(
    handler: AutoSaveHandler,
    save_after: u64,
    now: u64,
    then: u64,
)
    ensures
        ({
            let changed = after_event(
                handler,
                AutoSaveEvent::DocumentChanged { save_after },
                now,
            );
            debounce::is_due(changed.deadline, then) <==> then >= debounce::later(now, save_after)
        }),
{
}

/// Whether a change is reported for saving.
pub fn on_document_change(enabled: bool, timeout: u64) -> (r: Option<AutoSaveEvent>)
    ensures
        r == if enabled {
            Some(AutoSaveEvent::DocumentChanged { save_after: timeout })
        } else {
            None
        },
{
    if enabled {
        Some(AutoSaveEvent::DocumentChanged { save_after: timeout })
    } else {
        None
    }
}

/// Leaving insert mode saves at once exactly what was put off, if nothing rests; a change that
/// rests is saved later in any case.
pub proof fn law_leaving_insert_mode_saves_what_was_put_off(
    handler: AutoSaveHandler,
    save_after: u64,
    now: u64,
)
    ensures
        saves_at_once(handler, AutoSaveEvent::LeftInsertMode) <==> handler.save_pending
            && !handler.armed,
        !saves_at_once(handler, AutoSaveEvent::DocumentChanged { save_after }),
        after_event(handler, AutoSaveEvent::LeftInsertMode, now) == handler,
        after_event(handler, AutoSaveEvent::DocumentChanged { save_after }, now).armed,
        after_event(handler, AutoSaveEvent::DocumentChanged { save_after }, now).save_pending
            == handler.save_pending,
{
}

} // verus!
