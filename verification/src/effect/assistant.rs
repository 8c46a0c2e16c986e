//! What work on assistants leaves to do.

use vstd::prelude::*;

use crate::text::join;

verus! {

/// A change to the threads of the assistant.
#[derive(Debug)]
pub enum AssistantChange {
    /// A thread from the history is there again.
    Restore { open_panel: bool },
    /// A thread that is there is talked to from now on.
    Activate { open_panel: bool },
    DetachContext,
    Connect { command: String, open_panel: bool },
    Cycle,
    Close,
    NewThread,
    ToggleFollow { status: String },
    AttachContext { status: String },
    Submit,
    OpenEntry,
}

/// What somebody is told.
#[derive(Debug)]
pub enum AssistantNote {
    Text(String),
    Activated,
    Detached,
    AgentFailed(String),
    Connecting(String),
    Sending,
    Cancelling,
    NoEntrySelected,
    NoTurnChanges,
    NoThreadChanges,
    HistoryMissing,
    RecordMissing,
}

impl AssistantNote {
    pub open spec fn spec_text(self) -> Seq<char> {
        match self {
            AssistantNote::Text(text) => text@,
            AssistantNote::Activated => "Activated assistant history thread"@,
            AssistantNote::Detached => "Detached context"@,
            AssistantNote::AgentFailed(error) => "Agent failed: "@ + error@,
            AssistantNote::Connecting(command) => "Connecting assistant backend: "@ + command@
                + "..."@,
            AssistantNote::Sending => "Sending prompt to agent..."@,
            AssistantNote::Cancelling => "Cancelling assistant..."@,
            AssistantNote::NoEntrySelected => "No assistant entry selected"@,
            AssistantNote::NoTurnChanges => "Selected entry has no turn changes"@,
            AssistantNote::NoThreadChanges => "Active assistant thread has no changes"@,
            AssistantNote::HistoryMissing => "Assistant history backend missing"@,
            AssistantNote::RecordMissing => "Assistant history record missing"@,
        }
    }

    /// How it is worded.
    pub fn text(&self) -> (r: String)
        ensures
            r@ == self.spec_text(),
    {
        match self {
            AssistantNote::Text(text) => text.clone(),
            AssistantNote::Activated => "Activated assistant history thread".to_owned(),
            AssistantNote::Detached => "Detached context".to_owned(),
            AssistantNote::AgentFailed(error) => join("Agent failed: ", error.as_str()),
            AssistantNote::Connecting(command) => {
                let mut text = join("Connecting assistant backend: ", command.as_str());
                text.append("...");
                text
            },
            AssistantNote::Sending => "Sending prompt to agent...".to_owned(),
            AssistantNote::Cancelling => "Cancelling assistant...".to_owned(),
            AssistantNote::NoEntrySelected => "No assistant entry selected".to_owned(),
            AssistantNote::NoTurnChanges => "Selected entry has no turn changes".to_owned(),
            AssistantNote::NoThreadChanges => "Active assistant thread has no changes".to_owned(),
            AssistantNote::HistoryMissing => "Assistant history backend missing".to_owned(),
            AssistantNote::RecordMissing => "Assistant history record missing".to_owned(),
        }
    }
}

/// What is left to do after a change.
#[derive(Debug)]
pub enum AssistantStep {
    ApplyEffects,
    Redraw,
    /// Which threads are open is remembered for the next time.
    PersistLayout,
    OpenPanel,
    SetStatus(AssistantNote),
    SetError(AssistantNote),
}

pub open spec fn panel_step(open_panel: bool) -> Seq<AssistantStep> {
    if open_panel {
        seq![AssistantStep::OpenPanel]
    } else {
        seq![]
    }
}

/// What is left to do after a change that worked, or did not. Changes to which threads are open
/// are remembered, and the panel is opened where that was wanted.
pub open spec fn steps_after(change: AssistantChange, result: Result<(), String>) -> Seq<
    AssistantStep,
> {
    match result {
        Err(error) => match change {
            AssistantChange::Connect { .. } => seq![
                AssistantStep::SetError(AssistantNote::AgentFailed(error)),
            ],
            AssistantChange::OpenEntry => seq![
                AssistantStep::SetError(AssistantNote::NoEntrySelected),
            ],
            _ => seq![AssistantStep::SetError(AssistantNote::Text(error))],
        },
        Ok(_) => seq![AssistantStep::ApplyEffects] + match change {
            AssistantChange::Restore { open_panel } => seq![AssistantStep::PersistLayout]
                + panel_step(open_panel),
            AssistantChange::Activate { open_panel } => seq![AssistantStep::PersistLayout]
                + panel_step(open_panel) + seq![AssistantStep::SetStatus(AssistantNote::Activated)],
            AssistantChange::DetachContext => seq![
                AssistantStep::SetStatus(AssistantNote::Detached),
            ],
            AssistantChange::Connect { command, open_panel } => seq![AssistantStep::PersistLayout]
                + panel_step(open_panel) + seq![
                AssistantStep::SetStatus(AssistantNote::Connecting(command)),
            ],
            AssistantChange::Cycle | AssistantChange::Close => seq![
                AssistantStep::PersistLayout,
                AssistantStep::OpenPanel,
            ],
            AssistantChange::NewThread => seq![
                AssistantStep::Redraw,
                AssistantStep::PersistLayout,
                AssistantStep::OpenPanel,
            ],
            AssistantChange::ToggleFollow { status } | AssistantChange::AttachContext { status } => seq![
                AssistantStep::SetStatus(AssistantNote::Text(status)),
            ],
            AssistantChange::Submit => seq![AssistantStep::SetStatus(AssistantNote::Sending)],
            AssistantChange::OpenEntry => seq![],
        },
    }
}

/// What is left to do after a change.
pub fn apply_assistant_change(change: AssistantChange, result: Result<(), String>) -> (r: Vec<
    AssistantStep,
>)
    ensures
        r@ == steps_after(change, result),
{
    let mut steps: Vec<AssistantStep> = Vec::new();
    match result {
        Err(error) => {
            match change {
                AssistantChange::Connect { .. } => {
                    steps.push(AssistantStep::SetError(AssistantNote::AgentFailed(error)));
                },
                AssistantChange::OpenEntry => {
                    steps.push(AssistantStep::SetError(AssistantNote::NoEntrySelected));
                },
                _ => {
                    steps.push(AssistantStep::SetError(AssistantNote::Text(error)));
                },
            }
        },
        Ok(_) => {
            steps.push(AssistantStep::ApplyEffects);
            match change {
                AssistantChange::Restore { open_panel } => {
                    steps.push(AssistantStep::PersistLayout);
                    if open_panel {
                        steps.push(AssistantStep::OpenPanel);
                    }
                },
                AssistantChange::Activate { open_panel } => {
                    steps.push(AssistantStep::PersistLayout);
                    if open_panel {
                        steps.push(AssistantStep::OpenPanel);
                    }
                    steps.push(AssistantStep::SetStatus(AssistantNote::Activated));
                },
                AssistantChange::DetachContext => {
                    steps.push(AssistantStep::SetStatus(AssistantNote::Detached));
                },
                AssistantChange::Connect { command, open_panel } => {
                    steps.push(AssistantStep::PersistLayout);
                    if open_panel {
                        steps.push(AssistantStep::OpenPanel);
                    }
                    steps.push(AssistantStep::SetStatus(AssistantNote::Connecting(command)));
                },
                AssistantChange::Cycle | AssistantChange::Close => {
                    steps.push(AssistantStep::PersistLayout);
                    steps.push(AssistantStep::OpenPanel);
                },
                AssistantChange::NewThread => {
                    steps.push(AssistantStep::Redraw);
                    steps.push(AssistantStep::PersistLayout);
                    steps.push(AssistantStep::OpenPanel);
                },
                AssistantChange::ToggleFollow { status } | AssistantChange::AttachContext {
                    status,
                } => {
                    steps.push(AssistantStep::SetStatus(AssistantNote::Text(status)));
                },
                AssistantChange::Submit => {
                    steps.push(AssistantStep::SetStatus(AssistantNote::Sending));
                },
                AssistantChange::OpenEntry => {},
            }
        },
    }
    assert(steps@ =~= steps_after(change, result));
    steps
}

/// Calls off what the active thread is doing, if it is doing anything.
pub fn apply_cancel_active_assistant_thread(busy: bool) -> (r: Vec<AssistantStep>)
    ensures
        r@ == if busy {
            seq![
                AssistantStep::ApplyEffects,
                AssistantStep::SetStatus(AssistantNote::Cancelling),
            ]
        } else {
            seq![AssistantStep::SetStatus(AssistantNote::Cancelling)]
        },
{
    let mut steps: Vec<AssistantStep> = Vec::new();
    if busy {
        steps.push(AssistantStep::ApplyEffects);
    }
    steps.push(AssistantStep::SetStatus(AssistantNote::Cancelling));
    assert(steps@ =~= if busy {
        seq![AssistantStep::ApplyEffects, AssistantStep::SetStatus(AssistantNote::Cancelling)]
    } else {
        seq![AssistantStep::SetStatus(AssistantNote::Cancelling)]
    });
    steps
}

/// What is said if there are no changes to show, of a turn or of a whole thread.
pub fn apply_open_changes(shown: bool, of_turn: bool) -> (r: Option<AssistantNote>)
    ensures
        r == if shown {
            None
        } else if of_turn {
            Some(AssistantNote::NoTurnChanges)
        } else {
            Some(AssistantNote::NoThreadChanges)
        },
{
    if shown {
        None
    } else if of_turn {
        Some(AssistantNote::NoTurnChanges)
    } else {
        Some(AssistantNote::NoThreadChanges)
    }
}

/// What loading a thread from the history came to.
pub fn loaded_history_thread<R>(result: Result<Option<R>, String>) -> (r: Result<R, AssistantNote>)
    ensures
        r == match result {
            Ok(Some(record)) => Ok(record),
            Ok(None) => Err(AssistantNote::RecordMissing),
            Err(error) => Err(AssistantNote::Text(error)),
        },
{
    match result {
        Ok(Some(record)) => Ok(record),
        Ok(None) => Err(AssistantNote::RecordMissing),
        Err(error) => Err(AssistantNote::Text(error)),
    }
}

/// The threads that are loaded when an editor starts where one was before, and whether each is
/// talked to: those that were open, and the one that was talked to then.
pub open spec fn threads_to_load(open: Seq<u64>, active: Option<u64>) -> Seq<(u64, bool)> {
    open.map_values(|thread: u64| (thread, active == Some(thread)))
}

pub fn bootstrap_threads(open: &Vec<u64>, active: Option<u64>) -> (r: Vec<(u64, bool)>)
    ensures
        r@ == threads_to_load(open@, active),
{
    let mut out: Vec<(u64, bool)> = Vec::new();
    let mut i: usize = 0;
    while i < open.len()
        invariant
            i <= open@.len(),
            out@.len() == i,
            forall|j: int|
                0 <= j < i ==> #[trigger] out@[j] == (open@[j], active == Some(open@[j])),
        decreases open@.len() - i,
    {
        let is_active = match active {
            Some(thread) => thread == open[i],
            None => false,
        };
        out.push((open[i], is_active));
        i += 1;
    }
    assert(out@ =~= threads_to_load(open@, active));
    out
}

/// The panels that belong to the assistant.
pub open spec fn assistant_panels(panels: Seq<(u64, bool)>) -> Seq<u64>
    decreases panels.len(),
{
    if panels.len() == 0 {
        seq![]
    } else if panels.last().1 {
        assistant_panels(panels.drop_last()).push(panels.last().0)
    } else {
        assistant_panels(panels.drop_last())
    }
}

/// The panels to remove: those whose content is the assistant's.
pub fn apply_remove_assistant_panel(panels: &Vec<(u64, bool)>) -> (r: Vec<u64>)
    ensures
        r@ == assistant_panels(panels@),
{
    let mut out: Vec<u64> = Vec::new();
    let mut i: usize = 0;
    assert(panels@.take(0) =~= seq![]);
    while i < panels.len()
        invariant
            i <= panels@.len(),
            out@ == assistant_panels(panels@.take(i as int)),
        decreases panels@.len() - i,
    {
        assert(panels@.take(i + 1).drop_last() =~= panels@.take(i as int));
        if panels[i].1 {
            out.push(panels[i].0);
        }
        i += 1;
    }
    assert(panels@.take(i as int) =~= panels@);
    out
}

/// A change that failed has no effects and is told; one that worked has its effects first.
pub proof fn law_failed_changes_are_told(change: AssistantChange, error: String)
    ensures
        steps_after(change, Err(error)).len() == 1,
        steps_after(change, Err(error))[0] is SetError,
        steps_after(change, Ok(()))[0] == AssistantStep::ApplyEffects,
        forall|i: int|
            0 <= i < steps_after(change, Ok(())).len() ==> !(#[trigger] steps_after(
                change,
                Ok(()),
            )[i] is SetError),
        change is Connect ==> steps_after(change, Err(error))[0] == AssistantStep::SetError(
            AssistantNote::AgentFailed(error),
        ),
{
}

/// The panel is opened where that is wanted, and always for a new, a closed or another thread;
/// what shows is kept before that.
pub proof fn law_the_panel_opens_where_wanted(command: String, open_panel: bool)
    ensures
        steps_after(AssistantChange::Restore { open_panel }, Ok(())).contains(
            AssistantStep::OpenPanel,
        ) == open_panel,
        steps_after(AssistantChange::Activate { open_panel }, Ok(())).contains(
            AssistantStep::OpenPanel,
        ) == open_panel,
        steps_after(AssistantChange::Connect { command, open_panel }, Ok(())).contains(
            AssistantStep::OpenPanel,
        ) == open_panel,
        steps_after(AssistantChange::Cycle, Ok(()))[1] == AssistantStep::PersistLayout,
        steps_after(AssistantChange::Cycle, Ok(())).last() == AssistantStep::OpenPanel,
        steps_after(AssistantChange::Close, Ok(())).last() == AssistantStep::OpenPanel,
        steps_after(AssistantChange::NewThread, Ok(())).last() == AssistantStep::OpenPanel,
{
    let restored = steps_after(AssistantChange::Restore { open_panel }, Ok(()));
    let activated = steps_after(AssistantChange::Activate { open_panel }, Ok(()));
    let connected = steps_after(AssistantChange::Connect { command, open_panel }, Ok(()));
    if open_panel {
        assert(restored[2] == AssistantStep::OpenPanel);
        assert(activated[2] == AssistantStep::OpenPanel);
        assert(connected[2] == AssistantStep::OpenPanel);
    }
}

/// Every thread that was open is loaded, and the one that was active made so.
pub proof fn law_open_threads_are_loaded(open: Seq<u64>, active: Option<u64>, i: int)
    requires
        0 <= i < open.len(),
    ensures
        threads_to_load(open, active).len() == open.len(),
        threads_to_load(open, active)[i].0 == open[i],
        threads_to_load(open, active)[i].1 <==> active == Some(open[i]),
{
}

/// The panels of the assistant are removed, in order, and no others.
pub proof fn law_only_the_assistants_panels_go(panels: Seq<(u64, bool)>, panel: u64)
    ensures
        assistant_panels(Seq::<(u64, bool)>::empty()).len() == 0,
        assistant_panels(panels.push((panel, true))) == assistant_panels(panels).push(panel),
        assistant_panels(panels.push((panel, false))) == assistant_panels(panels),
{
    assert(panels.push((panel, true)).drop_last() =~= panels);
    assert(panels.push((panel, false)).drop_last() =~= panels);
}

} // verus!
