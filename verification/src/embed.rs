//! Driving the front end from a host that brings its own terminal and event loop.

use vstd::prelude::*;

use crate::compositor::event;
use crate::compositor::event::{Entered, Event, MacroState};
use crate::compositor::frame::Severity;
use crate::compositor::Compositor;
use crate::effect;
use crate::effect::{apply_runtime_task_event, EditorAction, EditorState, RuntimeTaskEvent};
use crate::geometry::Rect;

verus! {

/// What background work has for the editor.
#[derive(Debug)]
pub enum RuntimeDelivery<P> {
    Status { message: String, severity: Severity },
    Timer(u64),
    Task(RuntimeTaskEvent<P>),
    /// A question of an assistant was answered.
    AssistantPermissionResolved { thread: u64, request: P, decision: P },
    /// A command for the screen.
    Ui(P),
}

/// What the host has to do about a delivery.
#[derive(Debug)]
pub enum Applied<P> {
    Nothing,
    Task(Vec<EditorAction<P>>),
    ResolvePermission { thread: u64, request: P, decision: P },
    Ui(P),
}

/// Why nothing was received.
#[derive(Debug, Clone, Copy, PartialEq, Eq, Structural)]
pub enum TryRecvError {
    Empty,
    Closed,
}

/// What has come of taking in the deliveries that wait.
#[derive(Debug)]
pub enum PendingStep<P> {
    /// One was taken in, and this is to be done before the next is received.
    Applied(Applied<P>),
    /// None is left: so many were taken in, or no more can be received.
    Over(Result<usize, TryRecvError>),
}

/// The part of the editor and of the screen that deliveries and frames change.
pub struct EmbeddedEditor<C> {
    pub compositor: Compositor<C>,
    pub status_msg: Option<(String, Severity)>,
    pub redraw_pending: bool,
}

/// `applied` is what has to be done about a delivery.
pub open spec fn is_applied<P>(
    applied: Applied<P>,
    state: EditorState,
    delivery: RuntimeDelivery<P>,
) -> bool {
    match delivery {
        RuntimeDelivery::Status { .. } | RuntimeDelivery::Timer(_) => applied is Nothing,
        RuntimeDelivery::Task(task) => match applied {
            Applied::Task(actions) => actions@ == effect::task_actions(state, task),
            _ => false,
        },
        RuntimeDelivery::AssistantPermissionResolved { thread, request, decision } => applied == (
        Applied::ResolvePermission { thread, request, decision }),
        RuntimeDelivery::Ui(command) => applied == Applied::Ui(command),
    }
}

/// The status message after a delivery.
pub open spec fn status_after<P>(
    before: Option<(String, Severity)>,
    delivery: RuntimeDelivery<P>,
) -> Option<(String, Severity)> {
    match delivery {
        RuntimeDelivery::Status { message, severity } => Some((message, severity)),
        _ => before,
    }
}

/// A delivery that the screen is redrawn for.
pub open spec fn redraws<P>(delivery: RuntimeDelivery<P>) -> bool {
    delivery is Status || delivery is Timer
}

impl<C> EmbeddedEditor<C> {
    pub fn new(area: Rect) -> (r: Self)
        ensures
            r.compositor.area == area,
            r.compositor.layers@.len() == 0,
            r.status_msg is None,
            !r.redraw_pending,
    {
        EmbeddedEditor {
            compositor: Compositor::new(area),
            status_msg: None,
            redraw_pending: false,
        }
    }

    /// Takes in a delivery.
    pub fn apply_delivery<P>(&mut self, state: &EditorState, delivery: RuntimeDelivery<P>) -> (r:
        Applied<P>)
        ensures
            is_applied(r, *state, delivery),
            final(self).status_msg == status_after(old(self).status_msg, delivery),
            final(self).redraw_pending == (old(self).redraw_pending || redraws(delivery)),
            final(self).compositor == old(self).compositor,
    {
        match delivery {
            RuntimeDelivery::Status { message, severity } => {
                self.status_msg = Some((message, severity));
                self.redraw_pending = true;
                Applied::Nothing
            },
            RuntimeDelivery::Timer(_) => {
                self.redraw_pending = true;
                Applied::Nothing
            },
            RuntimeDelivery::Task(task) => Applied::Task(apply_runtime_task_event(state, task)),
            RuntimeDelivery::AssistantPermissionResolved { thread, request, decision } => {
                Applied::ResolvePermission { thread, request, decision }
            },
            RuntimeDelivery::Ui(command) => Applied::Ui(command),
        }
    }

    /// Takes in what was received without waiting. That there is nothing is no error.
    pub fn try_apply_next_delivery<P>(
        &mut self,
        state: &EditorState,
        received: Result<RuntimeDelivery<P>, TryRecvError>,
    ) -> (r: Result<Option<Applied<P>>, TryRecvError>)
        ensures
            match received {
                Ok(delivery) => {
                    &&& match r {
                        Ok(Some(applied)) => is_applied(applied, *state, delivery),
                        _ => false,
                    }
                    &&& final(self).status_msg == status_after(old(self).status_msg, delivery)
                    &&& final(self).redraw_pending == (old(self).redraw_pending || redraws(
                        delivery,
                    ))
                    &&& final(self).compositor == old(self).compositor
                },
                Err(TryRecvError::Empty) => {
                    &&& match r {
                        Ok(None) => true,
                        _ => false,
                    }
                    &&& *final(self) == *old(self)
                },
                Err(error) => {
                    &&& match r {
                        Err(told) => told == error,
                        _ => false,
                    }
                    &&& *final(self) == *old(self)
                },
            },
    {
        match received {
            Ok(delivery) => Ok(Some(self.apply_delivery(state, delivery))),
            Err(TryRecvError::Empty) => Ok(None),
            Err(error) => Err(error),
        }
    }

    /// Takes in one of the deliveries that wait, and counts it. With none left, the answer says
    /// how many there were; what was received next is judged by the editor as it is then.
    pub fn try_apply_pending_deliveries<P>(
        &mut self,
        applied: &mut usize,
        state: &EditorState,
        received: Result<RuntimeDelivery<P>, TryRecvError>,
    ) -> (r: PendingStep<P>)
        requires
            received is Ok ==> *old(applied) < usize::MAX,
        ensures
            match received {
                Ok(delivery) => {
                    &&& match r {
                        PendingStep::Applied(done) => is_applied(done, *state, delivery),
                        _ => false,
                    }
                    &&& *final(applied) == *old(applied) + 1
                    &&& final(self).status_msg == status_after(old(self).status_msg, delivery)
                    &&& final(self).redraw_pending == (old(self).redraw_pending || redraws(
                        delivery,
                    ))
                    &&& final(self).compositor == old(self).compositor
                },
                Err(error) => {
                    &&& r == PendingStep::<P>::Over(
                        if error == TryRecvError::Empty {
                            Ok(*old(applied))
                        } else {
                            Err(error)
                        },
                    )
                    &&& *final(applied) == *old(applied)
                    &&& *final(self) == *old(self)
                },
            },
    {
        match self.try_apply_next_delivery(state, received) {
            Ok(Some(done)) => {
                *applied = *applied + 1;
                PendingStep::Applied(done)
            },
            Ok(None) => PendingStep::Over(Ok(*applied)),
            Err(error) => PendingStep::Over(Err(error)),
        }
    }

    /// Gives the screen a new size. The layers are told by the event.
    pub fn resize(&mut self, area: Rect) -> (r: Event)
        ensures
            r == Event::Resize(area.width, area.height),
            final(self).compositor == (Compositor { area, ..old(self).compositor }),
            final(self).status_msg == old(self).status_msg,
            final(self).redraw_pending == old(self).redraw_pending,
    {
        self.compositor.resize(area);
        Event::Resize(area.width, area.height)
    }

    /// An event enters the compositor.
    pub fn handle_event<A>(
        &mut self,
        event: Event,
        macros: &mut MacroState,
        info_area: Option<Rect>,
    ) -> (r: Entered<A>)
        requires
            old(self).compositor.can_enter(event, info_area),
        ensures
            final(self).status_msg == old(self).status_msg,
            final(self).redraw_pending == old(self).redraw_pending,
            final(macros).replaying == old(macros).replaying,
            final(macros).keys() == old(macros).keys_after(event::canonical(event)),
            old(self).compositor.enters(event, info_area, r, final(self).compositor),
    {
        self.compositor.handle_event(event, macros, info_area)
    }

    /// Gets ready for a frame: if the screen has another size than before, it is resized first.
    pub fn render_frame(&mut self, area: Rect) -> (r: Option<Event>)
        ensures
            final(self).compositor == (Compositor { area, ..old(self).compositor }),
            final(self).status_msg == old(self).status_msg,
            final(self).redraw_pending == old(self).redraw_pending,
            old(self).compositor.area == area ==> r is None,
            old(self).compositor.area != area ==> r == Some(
                Event::Resize(area.width, area.height),
            ),
    {
        if self.compositor.size() == area {
            None
        } else {
            Some(self.resize(area))
        }
    }
}

/// What was received without waiting, or that there was nothing.
pub fn try_recv<T>(received: Result<T, TryRecvError>) -> (r: Result<Option<T>, TryRecvError>)
    ensures
        match received {
            Ok(value) => r == Ok::<Option<T>, TryRecvError>(Some(value)),
            Err(TryRecvError::Empty) => r == Ok::<Option<T>, TryRecvError>(None),
            Err(TryRecvError::Closed) => r == Err::<Option<T>, _>(TryRecvError::Closed),
        },
{
    match received {
        Ok(value) => Ok(Some(value)),
        Err(TryRecvError::Empty) => Ok(None),
        Err(TryRecvError::Closed) => Err(TryRecvError::Closed),
    }
}

/// The statuses of several deliveries in a row.
pub open spec fn statuses<P>(
    before: Option<(String, Severity)>,
    deliveries: Seq<RuntimeDelivery<P>>,
) -> Option<(String, Severity)>
    decreases deliveries.len(),
{
    if deliveries.len() == 0 {
        before
    } else {
        status_after(statuses(before, deliveries.drop_last()), deliveries.last())
    }
}

/// Of several statuses the last one stays.
pub proof fn law_the_last_status_stays<P>(
    before: Option<(String, Severity)>,
    deliveries: Seq<RuntimeDelivery<P>>,
    i: int,
)
    requires
        0 <= i < deliveries.len(),
        deliveries[i] is Status,
        forall|j: int| i < j < deliveries.len() ==> !((#[trigger] deliveries[j]) is Status),
    ensures
        statuses(before, deliveries) == status_after(None, deliveries[i]),
    decreases deliveries.len(),
{
    if i < deliveries.len() - 1 {
        let shorter = deliveries.drop_last();
        assert(shorter[i] == deliveries[i]);
        assert forall|j: int| i < j < shorter.len() implies !((#[trigger] shorter[j]) is Status) by {
            assert(shorter[j] == deliveries[j]);
        }
        law_the_last_status_stays(before, shorter, i);
        assert(!(deliveries[deliveries.len() - 1] is Status));
    }
}

/// What is delivered is applied as what it is, and only a status or a timer asks for a new frame;
/// only a status changes the one that is shown.
pub proof fn law_deliveries_are_applied_as_they_are<P>(
    applied: Applied<P>,
    state: EditorState,
    delivery: RuntimeDelivery<P>,
    before: Option<(String, Severity)>,
)
    requires
        is_applied(applied, state, delivery),
    ensures
        delivery is Status || delivery is Timer <==> redraws(delivery),
        delivery is Status || delivery is Timer ==> applied is Nothing,
        delivery matches RuntimeDelivery::Ui(command) ==> applied == Applied::Ui(command),
        delivery matches RuntimeDelivery::Task(task) ==> (applied matches Applied::Task(actions)
            && actions@ == effect::task_actions(state, task)),
        delivery matches RuntimeDelivery::Status { message, severity } ==> status_after(
            before,
            delivery,
        ) == Some((message, severity)),
        !(delivery is Status) ==> status_after(before, delivery) == before,
{
}

/// Whoever answered an assistant is heard: the answer goes to the thread and the question that it
/// was given to.
pub proof fn law_permissions_reach_who_asked<P>(
    applied: Applied<P>,
    state: EditorState,
    thread: u64,
    request: P,
    decision: P,
)
    ensures
        is_applied(
            applied,
            state,
            RuntimeDelivery::AssistantPermissionResolved { thread, request, decision },
        ) <==> applied == (Applied::ResolvePermission { thread, request, decision }),
{
}

} // verus!
