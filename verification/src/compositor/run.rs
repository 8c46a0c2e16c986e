//! An event from its arrival until nothing is left to do for it: the layers are asked, what they
//! request is applied, and the keys that a macro types are events in turn.

use std::collections::VecDeque;

use vstd::prelude::*;

use crate::compositor::event;
use crate::compositor::event::{Dispatch, Entered, Event, EventResult, MacroState};
use crate::compositor::post_action;
use crate::compositor::post_action::{apply_post_action, PostAction, PostEffect, Stack};
use crate::compositor::Compositor;
use crate::geometry::Rect;
use crate::keymap::key::KeyEvent;

verus! {

/// Something that is left to do.
#[allow(inconsistent_fields)]
pub enum Task<C> {
    /// The layers are asked about the event.
    Ask { event: Event, dispatch: Dispatch<PostAction<C>> },
    /// A request is applied that is neither a batch nor a replay.
    Act(PostAction<C>),
    /// The keys from `next` on are handled as events, in the first of so many rounds over all of
    /// them; then, if asked, the innermost macro is no longer replayed.
    Replay { keys: Vec<KeyEvent>, next: usize, rounds: usize, pop_macro_replaying: bool },
}

/// What a request comes to: a batch is its parts, in order.
pub open spec fn flat<C>(action: PostAction<C>) -> Seq<Task<C>>
    decreases action,
{
    match action {
        PostAction::Batch(actions) => flat_all(actions@),
        PostAction::ReplayKeys { keys, count, pop_macro_replaying } => seq![
            Task::Replay { keys, next: 0, rounds: count, pop_macro_replaying },
        ],
        other => seq![Task::Act(other)],
    }
}

pub open spec fn flat_all<C>(actions: Seq<PostAction<C>>) -> Seq<Task<C>>
    decreases actions,
{
    if actions.len() == 0 {
        seq![]
    } else {
        flat_all(actions.drop_last()) + flat(actions.last())
    }
}

/// Adds what a request comes to.
fn flatten<C>(action: PostAction<C>, out: &mut Vec<Task<C>>)
    ensures
        final(out)@ == old(out)@ + flat(action),
    decreases action,
{
    match action {
        PostAction::Batch(actions) => {
            flatten_all(actions, out);
        },
        PostAction::ReplayKeys { keys, count, pop_macro_replaying } => {
            out.push(Task::Replay { keys, next: 0, rounds: count, pop_macro_replaying });
        },
        other => {
            out.push(Task::Act(other));
        },
    }
}

fn flatten_all<C>(actions: Vec<PostAction<C>>, out: &mut Vec<Task<C>>)
    ensures
        final(out)@ == old(out)@ + flat_all(actions@),
    decreases actions@,
{
    let ghost all = actions@;
    for action in it: actions
        invariant
            it.seq() == all,
            all == actions@,
            out@ == old(out)@ + flat_all(all.take(it.index())),
    {
        proof {
            let i = it.index();
            assert(action == all[i]);
            assert(all.take(i + 1).drop_last() =~= all.take(i));
            assert(decreases_to!(all => all[i]));
        }
        flatten(action, out);
    }
    assert(all.take(all.len() as int) =~= all);
}

/// What is left to do for an event.
pub struct Run<C> {
    /// From what is done first to what is done last.
    pub tasks: VecDeque<Task<C>>,
    /// Whether the event was consumed, once that is known.
    pub consumed: Option<bool>,
}

/// What is done next for an event.
#[allow(inconsistent_fields)]
pub enum RunStep<C> {
    /// Nothing is left.
    Done,
    /// The layer is asked about the event of `Run::asked`; its answer goes to `Run::answer`.
    AskLayer(usize),
    /// This is left of a request that was applied to the layers.
    Effect(PostEffect<C>),
    /// There is something else to do.
    GoOn,
}

/// The run that an event begins, and how many lines the info box scrolls for it.
pub open spec fn begun<C>(
    entered: Entered<PostAction<C>>,
    run: Run<C>,
    scroll: Option<i32>,
) -> bool {
    match entered {
        Entered::InfoBox(lines) => {
            &&& run.tasks@.len() == 0
            &&& run.consumed == Some(true)
            &&& scroll == Some(lines)
        },
        Entered::Panel => {
            &&& run.tasks@.len() == 0
            &&& run.consumed == Some(true)
            &&& scroll is None
        },
        Entered::Layers { event, dispatch } => {
            &&& run.tasks@ == seq![Task::Ask { event, dispatch }]
            &&& run.consumed is None
            &&& scroll is None
        },
    }
}

/// The replay after one more of its keys.
pub open spec fn typed_on<C>(task: Task<C>) -> Task<C> {
    match task {
        Task::Replay { keys, next, rounds, pop_macro_replaying } => if next + 1 < keys@.len() {
            Task::Replay { keys, next: (next + 1) as usize, rounds, pop_macro_replaying }
        } else {
            Task::Replay { keys, next: 0, rounds: (rounds - 1) as usize, pop_macro_replaying }
        },
        other => other,
    }
}

/// So many layers are to be asked about the event, and none has been.
pub open spec fn is_asking<C>(task: Task<C>, event: Event, layers: nat) -> bool {
    match task {
        Task::Ask { event: asked, dispatch } => {
            &&& asked == event
            &&& dispatch.remaining == layers
            &&& dispatch.so_far() == event::bubbled::<PostAction<C>>(seq![])
        },
        _ => false,
    }
}

impl<C> Run<C> {
    /// A layer is to be asked next.
    pub open spec fn asks(self) -> bool {
        &&& self.tasks@.len() > 0
        &&& self.tasks@[0] matches Task::Ask { event, dispatch } && !dispatch.consumed
            && dispatch.remaining > 0
    }

    /// One step from `self` to `after`, which does `step`.
    pub open spec fn steps(
        self,
        compositor: Compositor<C>,
        macros: MacroState,
        step: RunStep<C>,
        after: Run<C>,
        compositor_after: Compositor<C>,
        macros_after: MacroState,
    ) -> bool {
        let tasks = self.tasks@;
        let rest = tasks.skip(1);
        if tasks.len() == 0 {
            &&& step == RunStep::<C>::Done
            &&& after.tasks@ == tasks
            &&& after.consumed == self.consumed
            &&& compositor_after == compositor
            &&& macros_after == macros
        } else {
            match tasks[0] {
                Task::Ask { event, dispatch } => {
                    &&& compositor_after == compositor
                    &&& macros_after == macros
                    &&& if self.asks() {
                        &&& step == RunStep::<C>::AskLayer((dispatch.remaining - 1) as usize)
                        &&& after.tasks@ == tasks
                        &&& after.consumed == self.consumed
                    } else {
                        &&& step == RunStep::<C>::GoOn
                        &&& after.tasks@ == flat_all(dispatch.actions@) + rest
                        &&& after.consumed == match self.consumed {
                            Some(consumed) => Some(consumed),
                            None => Some(dispatch.consumed),
                        }
                    }
                },
                Task::Act(action) => {
                    &&& step matches RunStep::Effect(effect) && post_action::leaves(
                        compositor.stack(),
                        compositor.area,
                        action,
                        effect,
                    )
                    &&& compositor_after.stack() == post_action::acted(compositor.stack(), action)
                    &&& compositor_after.same_frame(compositor)
                    &&& macros_after == macros
                    &&& after.tasks@ == rest
                    &&& after.consumed == self.consumed
                },
                Task::Replay { keys, next, rounds, pop_macro_replaying } => {
                    &&& step == RunStep::<C>::GoOn
                    &&& after.consumed == self.consumed
                    &&& compositor_after == compositor
                    &&& if rounds > 0 && next < keys@.len() {
                        let key = event::canonical(Event::Key(keys@[next as int]));
                        &&& macros_after.replaying == macros.replaying
                        &&& macros_after.keys() == macros.keys_after(key)
                        &&& after.tasks@.len() == rest.len() + 2
                        &&& is_asking(after.tasks@[0], key, compositor.layers@.len())
                        &&& after.tasks@[1] == typed_on(tasks[0])
                        &&& after.tasks@.skip(2) == rest
                    } else {
                        &&& after.tasks@ == rest
                        &&& macros_after.recording == macros.recording
                        &&& macros_after.replaying@ == if pop_macro_replaying
                            && macros.replaying@.len() > 0 {
                            macros.replaying@.drop_last()
                        } else {
                            macros.replaying@
                        }
                    }
                },
            }
        }
    }

    /// What has to be done for a request.
    pub fn of(action: PostAction<C>) -> (r: Run<C>)
        ensures
            r.tasks@ == flat(action),
            r.consumed is None,
    {
        let mut run = Run { tasks: VecDeque::new(), consumed: None };
        let mut tasks: Vec<Task<C>> = Vec::new();
        flatten(action, &mut tasks);
        assert(tasks@ =~= flat(action));
        run.put_first(tasks);
        assert(run.tasks@ =~= flat(action));
        run
    }

    /// Puts tasks before all others.
    fn put_first(&mut self, tasks: Vec<Task<C>>)
        ensures
            final(self).tasks@ == tasks@ + old(self).tasks@,
            final(self).consumed == old(self).consumed,
    {
        let mut tasks = tasks;
        let ghost all = tasks@;
        assert(all.skip(all.len() as int) + self.tasks@ =~= self.tasks@);
        while tasks.len() > 0
            invariant
                tasks@.len() <= all.len(),
                tasks@ == all.take(tasks@.len() as int),
                self.tasks@ == all.skip(tasks@.len() as int) + old(self).tasks@,
                self.consumed == old(self).consumed,
            decreases tasks@.len(),
        {
            let ghost n = tasks@.len() as int;
            match tasks.pop() {
                Some(task) => {
                    self.tasks.push_front(task);
                    assert(task == all[n - 1]);
                    assert(self.tasks@ =~= all.skip(n - 1) + old(self).tasks@);
                    assert(tasks@ =~= all.take(n - 1));
                },
                None => {},
            }
        }
        assert(all.skip(0) =~= all);
    }

    /// The event that a layer is to be asked about.
    pub fn asked(&self) -> (r: Option<&Event>)
        ensures
            match r {
                Some(event) => self.tasks@.len() > 0 && (self.tasks@[0] matches Task::Ask {
                    event: asked,
                    ..
                } && *event == asked),
                None => self.tasks@.len() > 0 ==> !(self.tasks@[0] is Ask),
            },
    {
        if self.tasks.len() == 0 {
            return None;
        }
        match &self.tasks[0] {
            Task::Ask { event, .. } => Some(event),
            _ => None,
        }
    }

    /// The layer that was asked has answered.
    pub fn answer(&mut self, result: EventResult<PostAction<C>>)
        requires
            old(self).asks(),
        ensures
            final(self).consumed == old(self).consumed,
            final(self).tasks@.len() == old(self).tasks@.len(),
            final(self).tasks@.skip(1) == old(self).tasks@.skip(1),
            old(self).tasks@[0] matches Task::Ask { event, dispatch } && final(self).tasks@[0] matches Task::Ask {
                event: still,
                dispatch: after,
            } && still == event && after.remaining == dispatch.remaining - 1 && after.so_far()
                == event::answered(dispatch.so_far(), result),
    {
        let ghost before = self.tasks@;
        if let Some(Task::Ask { event, dispatch }) = self.tasks.pop_front() {
            let mut dispatch = dispatch;
            dispatch.answer(result);
            self.tasks.push_front(Task::Ask { event, dispatch });
            assert(self.tasks@.skip(1) =~= before.skip(1));
        }
    }

    /// Does one step, or says which one is to be done outside.
    pub fn step(&mut self, compositor: &mut Compositor<C>, macros: &mut MacroState) -> (r: RunStep<C>)
        ensures
            old(self).steps(
                *old(compositor),
                *old(macros),
                r,
                *final(self),
                *final(compositor),
                *final(macros),
            ),
    {
        let ghost before = self.tasks@;
        match self.tasks.pop_front() {
            None => RunStep::Done,
            Some(Task::Ask { event, dispatch }) => {
                match dispatch.next_layer() {
                    Some(layer) => {
                        self.tasks.push_front(Task::Ask { event, dispatch });
                        assert(self.tasks@ =~= before);
                        RunStep::AskLayer(layer)
                    },
                    None => {
                        if self.consumed.is_none() {
                            self.consumed = Some(dispatch.consumed);
                        }
                        let mut tasks: Vec<Task<C>> = Vec::new();
                        flatten_all(dispatch.actions, &mut tasks);
                        assert(tasks@ =~= flat_all(dispatch.actions@));
                        self.put_first(tasks);
                        RunStep::GoOn
                    },
                }
            },
            Some(Task::Act(action)) => RunStep::Effect(apply_post_action(compositor, action)),
            Some(Task::Replay { keys, next, rounds, pop_macro_replaying }) => {
                if rounds > 0 && next < keys.len() {
                    let key = keys[next];
                    let (next, rounds): (usize, usize) = if next + 1 < keys.len() {
                        (next + 1, rounds)
                    } else {
                        (0, rounds - 1)
                    };
                    self.tasks.push_front(
                        Task::Replay { keys, next, rounds, pop_macro_replaying },
                    );
                    let entered = compositor.handle_event(Event::Key(key), macros, None);
                    if let Entered::Layers { event, dispatch } = entered {
                        self.tasks.push_front(Task::Ask { event, dispatch });
                    }
                    assert(self.tasks@.skip(2) =~= before.skip(1));
                } else if pop_macro_replaying {
                    macros.pop_replaying();
                }
                RunStep::GoOn
            },
        }
    }
}

impl<C> Compositor<C> {
    /// An event enters, as `handle_event` says, and begins its run.
    pub fn begin_run(
        &mut self,
        event: Event,
        macros: &mut MacroState,
        info_area: Option<Rect>,
    ) -> (r: (Run<C>, Option<i32>))
        requires
            old(self).can_enter(event, info_area),
        ensures
            final(macros).replaying == old(macros).replaying,
            final(macros).keys() == old(macros).keys_after(event::canonical(event)),
            exists|entered: Entered<PostAction<C>>| #[trigger]
                old(self).enters(event, info_area, entered, *final(self)) && begun(
                    entered,
                    r.0,
                    r.1,
                ),
    {
        let mut tasks: VecDeque<Task<C>> = VecDeque::new();
        let entered = self.handle_event::<PostAction<C>>(event, macros, info_area);
        let ghost came = entered;
        let r = match entered {
            Entered::InfoBox(lines) => (Run { tasks, consumed: Some(true) }, Some(lines)),
            Entered::Panel => (Run { tasks, consumed: Some(true) }, None),
            Entered::Layers { event, dispatch } => {
                tasks.push_back(Task::Ask { event, dispatch });
                assert(tasks@ =~= seq![Task::Ask { event, dispatch }]);
                (Run { tasks, consumed: None }, None)
            },
        };
        assert(begun(came, r.0, r.1));
        r
    }
}

/// What a request makes of the layers, where a batch is each of its parts after the other.
pub open spec fn applied<C>(stack: Stack<C>, action: PostAction<C>) -> Stack<C>
    decreases action,
{
    match action {
        PostAction::Batch(actions) => applied_all(stack, actions@),
        other => post_action::acted(stack, other),
    }
}

pub open spec fn applied_all<C>(stack: Stack<C>, actions: Seq<PostAction<C>>) -> Stack<C>
    decreases actions,
{
    if actions.len() == 0 {
        stack
    } else {
        applied(applied_all(stack, actions.drop_last()), actions.last())
    }
}

/// What the tasks make of the layers, where no key that is replayed changes them.
pub open spec fn worked_off<C>(stack: Stack<C>, tasks: Seq<Task<C>>) -> Stack<C>
    decreases tasks.len(),
{
    if tasks.len() == 0 {
        stack
    } else {
        let before = worked_off(stack, tasks.drop_last());
        match tasks.last() {
            Task::Act(action) => post_action::acted(before, action),
            _ => before,
        }
    }
}

proof fn lemma_worked_off_in_parts<C>(stack: Stack<C>, first: Seq<Task<C>>, second: Seq<Task<C>>)
    ensures
        worked_off(stack, first + second) == worked_off(worked_off(stack, first), second),
    decreases second.len(),
{
    if second.len() == 0 {
        assert(first + second =~= first);
    } else {
        lemma_worked_off_in_parts(stack, first, second.drop_last());
        assert((first + second).drop_last() =~= first + second.drop_last());
    }
}

/// Every request in a batch, however deep, is applied once and in order.
pub proof fn law_requests_are_applied_once_and_in_order<C>(stack: Stack<C>, action: PostAction<C>)
    ensures
        worked_off(stack, flat(action)) == applied(stack, action),
    decreases action,
{
    reveal_with_fuel(worked_off, 2);
    match action {
        PostAction::Batch(actions) => {
            lemma_batches_are_applied_in_order(stack, actions@);
        },
        PostAction::ReplayKeys { keys, count, pop_macro_replaying } => {
            assert(flat(action).drop_last() =~= seq![]);
        },
        other => {
            assert(flat(action).drop_last() =~= seq![]);
        },
    }
}

proof fn lemma_batches_are_applied_in_order<C>(stack: Stack<C>, actions: Seq<PostAction<C>>)
    ensures
        worked_off(stack, flat_all(actions)) == applied_all(stack, actions),
    decreases actions,
{
    if actions.len() > 0 {
        let before = actions.drop_last();
        lemma_batches_are_applied_in_order(stack, before);
        lemma_worked_off_in_parts(stack, flat_all(before), flat(actions.last()));
        law_requests_are_applied_once_and_in_order(applied_all(stack, before), actions.last());
    }
}

/// The requests of two batches are those of the one and then those of the other.
pub proof fn law_batches_are_flattened_in_order<C>(
    first: Seq<PostAction<C>>,
    second: Seq<PostAction<C>>,
)
    ensures
        flat_all(first + second) == flat_all(first) + flat_all(second),
    decreases second.len(),
{
    if second.len() == 0 {
        assert(first + second =~= first);
        assert(flat_all(first) + flat_all(second) =~= flat_all(first));
    } else {
        law_batches_are_flattened_in_order(first, second.drop_last());
        assert((first + second).drop_last() =~= first + second.drop_last());
        assert(flat_all(first) + (flat_all(second.drop_last()) + flat(second.last())) =~= (flat_all(
            first,
        ) + flat_all(second.drop_last())) + flat(second.last()));
    }
}

/// Keys over and over.
pub open spec fn repeated(keys: Seq<KeyEvent>, rounds: nat) -> Seq<KeyEvent>
    decreases rounds,
{
    if rounds == 0 {
        seq![]
    } else {
        keys + repeated(keys, (rounds - 1) as nat)
    }
}

/// The keys that a task has left to type.
pub open spec fn left_to_type<C>(task: Task<C>) -> Seq<KeyEvent> {
    match task {
        Task::Replay { keys, next, rounds, .. } => if rounds > 0 && next < keys@.len() {
            keys@.skip(next as int) + repeated(keys@, (rounds - 1) as nat)
        } else {
            seq![]
        },
        _ => seq![],
    }
}

proof fn lemma_no_keys_repeated(keys: Seq<KeyEvent>, rounds: nat)
    requires
        keys.len() == 0,
    ensures
        repeated(keys, rounds).len() == 0,
    decreases rounds,
{
    if rounds > 0 {
        lemma_no_keys_repeated(keys, (rounds - 1) as nat);
    }
}

/// The keys of a replay are typed in turn, as many times over as it says.
pub proof fn law_replays_type_every_key<C>(
    keys: Vec<KeyEvent>,
    next: usize,
    rounds: usize,
    pop_macro_replaying: bool,
)
    ensures
        left_to_type::<C>(
            flat(PostAction::ReplayKeys { keys, count: rounds, pop_macro_replaying })[0],
        ) == repeated(keys@, rounds as nat),
        rounds > 0 && next < keys@.len() ==> {
            let task = Task::<C>::Replay { keys, next, rounds, pop_macro_replaying };
            &&& left_to_type(task).len() > 0
            &&& left_to_type(task)[0] == keys@[next as int]
            &&& left_to_type(typed_on(task)) == left_to_type(task).skip(1)
        },
{
    if keys@.len() == 0 {
        lemma_no_keys_repeated(keys@, rounds as nat);
        assert(repeated(keys@, rounds as nat) =~= seq![]);
    } else {
        assert(keys@.skip(0) =~= keys@);
    }
    if rounds > 0 && next < keys@.len() {
        let task = Task::<C>::Replay { keys, next, rounds, pop_macro_replaying };
        if next + 1 < keys@.len() {
            assert(keys.len() == keys@.len());
            assert(left_to_type(typed_on(task)) =~= left_to_type(task).skip(1));
        } else {
            assert(keys@.skip(next as int).len() == 1);
            assert(left_to_type(task).skip(1) =~= repeated(keys@, (rounds - 1) as nat));
            if rounds > 1 {
                assert(keys@.skip(0) =~= keys@);
            }
        }
    }
}

/// While layers are asked the one in front of those that were not is next; once they are done what
/// they asked for comes before what waited, and whether the event was taken is settled once.
pub proof fn law_requests_come_before_what_waited<C>(
    run: Run<C>,
    compositor: Compositor<C>,
    macros: MacroState,
    step: RunStep<C>,
    after: Run<C>,
    compositor_after: Compositor<C>,
    macros_after: MacroState,
    event: Event,
    dispatch: Dispatch<PostAction<C>>,
)
    requires
        run.steps(compositor, macros, step, after, compositor_after, macros_after),
        run.tasks@.len() > 0,
        run.tasks@[0] == (Task::Ask { event, dispatch }),
    ensures
        compositor_after == compositor,
        !dispatch.consumed && dispatch.remaining > 0 ==> step == RunStep::<C>::AskLayer(
            (dispatch.remaining - 1) as usize,
        ) && after.tasks@ == run.tasks@,
        dispatch.consumed || dispatch.remaining == 0 ==> step == RunStep::<C>::GoOn && after.tasks@
            == flat_all(dispatch.actions@) + run.tasks@.skip(1),
        dispatch.consumed || dispatch.remaining == 0 ==> (run.consumed is None ==> after.consumed
            == Some(dispatch.consumed)) && (run.consumed is Some ==> after.consumed
            == run.consumed),
{
}

} // verus!
