//! What layers ask for after an event.

use vstd::prelude::*;

use crate::compositor;
use crate::compositor::{Compositor, Layer};
use crate::geometry::Rect;
use crate::keymap::key::KeyEvent;

verus! {

/// A count that is not zero.
#[derive(Debug, Clone, Copy)]
pub struct Count {
    n: usize,
}

impl Count {
    #[verifier::type_invariant]
    spec fn is_positive(self) -> bool {
        self.n > 0
    }

    pub closed spec fn value(self) -> usize {
        self.n
    }

    /// The count, unless it is zero.
    pub fn new(n: usize) -> (r: Option<Count>)
        ensures
            r matches Some(count) ==> count.value() == n,
            r is Some <==> n > 0,
    {
        if n > 0 {
            Some(Count { n })
        } else {
            None
        }
    }

    pub fn get(&self) -> (r: usize)
        ensures
            r == self.value(),
            r > 0,
    {
        proof {
            use_type_invariant(&*self);
        }
        self.n
    }
}

/// A request that a layer makes after it has handled an event.
#[allow(inconsistent_fields)]
pub enum PostAction<C> {
    PopLayer { model_layer: Option<u64>, remember_picker: bool },
    RemoveById(String),
    PushLayer(Layer<C>),
    ReplaceOrPushLayer { id: String, layer: Layer<C> },
    UpdateCompletionFilter(Option<char>),
    ClearCompletion,
    ShowCommandPalette { register: Option<char>, count: Option<Count> },
    RestoreLastPicker,
    ReplayKeys { keys: Vec<KeyEvent>, count: usize, pop_macro_replaying: bool },
    Batch(Vec<PostAction<C>>),
}

/// What is left to do outside of the stack of layers.
#[allow(inconsistent_fields)]
pub enum PostEffect<C> {
    Nothing,
    /// The component in front is asked the size that it needs in a viewport so wide and so high.
    RequireSize(u16, u16),
    /// The layer is taken out of the model.
    RemoveModelLayer(u64),
    UpdateCompletionFilter(Option<char>),
    ClearCompletion,
    ShowCommandPalette { register: Option<char>, count: Option<Count> },
    SetError(String),
    /// The keys are handled as events, in turn and as many times over as `count` says; then, if
    /// asked, the innermost macro is no longer replayed.
    ReplayKeys { keys: Vec<KeyEvent>, count: usize, pop_macro_replaying: bool },
    /// The requests are applied in turn.
    Each(Vec<PostAction<C>>),
}

/// The layers and the remembered picker.
pub struct Stack<C> {
    pub layers: Seq<Layer<C>>,
    pub last_picker: Option<Layer<C>>,
}

impl<C> Compositor<C> {
    pub open spec fn stack(self) -> Stack<C> {
        Stack { layers: self.layers@, last_picker: self.last_picker }
    }
}

pub open spec fn pushed<C>(stack: Stack<C>, layer: Layer<C>) -> Stack<C> {
    Stack {
        layers: stack.layers.push(layer),
        last_picker: if layer.has_id(compositor::picker_id()) {
            None
        } else {
            stack.last_picker
        },
    }
}

pub open spec fn removed<C>(stack: Stack<C>, id: Seq<char>) -> Stack<C> {
    let at = compositor::first_with_id(stack.layers, id);
    if at < stack.layers.len() {
        Stack { layers: stack.layers.remove(at), ..stack }
    } else {
        stack
    }
}

/// What an action makes of the stack of layers.
pub open spec fn acted<C>(stack: Stack<C>, action: PostAction<C>) -> Stack<C> {
    match action {
        PostAction::PopLayer { model_layer, remember_picker } => {
            let front = if stack.layers.len() > 0 {
                Some(stack.layers.last())
            } else {
                None
            };
            Stack {
                layers: if stack.layers.len() > 0 {
                    stack.layers.drop_last()
                } else {
                    stack.layers
                },
                last_picker: if remember_picker {
                    front
                } else {
                    stack.last_picker
                },
            }
        },
        PostAction::RemoveById(id) => removed(stack, id@),
        PostAction::PushLayer(layer) => pushed(stack, layer),
        PostAction::ReplaceOrPushLayer { id, layer } => pushed(removed(stack, id@), layer),
        PostAction::RestoreLastPicker => match stack.last_picker {
            Some(picker) => pushed(Stack { last_picker: None, ..stack }, picker),
            None => stack,
        },
        _ => stack,
    }
}

/// What an action leaves to be done.
pub open spec fn leaves<C>(
    stack: Stack<C>,
    area: Rect,
    action: PostAction<C>,
    effect: PostEffect<C>,
) -> bool {
    match action {
        PostAction::PopLayer { model_layer, .. } => effect == match model_layer {
            Some(id) => PostEffect::RemoveModelLayer(id),
            None => PostEffect::<C>::Nothing,
        },
        PostAction::RemoveById(_) => effect == PostEffect::<C>::Nothing,
        PostAction::PushLayer(_) | PostAction::ReplaceOrPushLayer { .. } => effect
            == PostEffect::<C>::RequireSize(area.width, area.height),
        PostAction::UpdateCompletionFilter(c) => effect == PostEffect::<C>::UpdateCompletionFilter(
            c,
        ),
        PostAction::ClearCompletion => effect == PostEffect::<C>::ClearCompletion,
        PostAction::ShowCommandPalette { register, count } => effect
            == PostEffect::<C>::ShowCommandPalette { register, count },
        PostAction::RestoreLastPicker => match stack.last_picker {
            Some(_) => effect == PostEffect::<C>::RequireSize(area.width, area.height),
            None => effect matches PostEffect::SetError(message) && message@ == "no last picker"@,
        },
        PostAction::ReplayKeys { keys, count, pop_macro_replaying } => effect
            == PostEffect::<C>::ReplayKeys { keys, count, pop_macro_replaying },
        PostAction::Batch(actions) => effect == PostEffect::Each(actions),
    }
}

/// Applies a request to the stack of layers; what is returned is done before the next request.
pub fn apply_post_action<C>(compositor: &mut Compositor<C>, action: PostAction<C>) -> (effect:
    PostEffect<C>)
    ensures
        final(compositor).stack() == acted(old(compositor).stack(), action),
        final(compositor).same_frame(*old(compositor)),
        leaves(old(compositor).stack(), old(compositor).area, action, effect),
{
    match action {
        PostAction::PopLayer { model_layer, remember_picker } => {
            let front = compositor.pop();
            if remember_picker {
                compositor.last_picker = front;
            }
            match model_layer {
                Some(id) => PostEffect::RemoveModelLayer(id),
                None => PostEffect::Nothing,
            }
        },
        PostAction::RemoveById(id) => {
            let _ = compositor.remove(id.as_str());
            PostEffect::Nothing
        },
        PostAction::PushLayer(layer) => {
            let (width, height) = compositor.push(layer);
            PostEffect::RequireSize(width, height)
        },
        PostAction::ReplaceOrPushLayer { id, layer } => {
            let _ = compositor.remove(id.as_str());
            let (width, height) = compositor.push(layer);
            PostEffect::RequireSize(width, height)
        },
        PostAction::UpdateCompletionFilter(c) => PostEffect::UpdateCompletionFilter(c),
        PostAction::ClearCompletion => PostEffect::ClearCompletion,
        PostAction::ShowCommandPalette { register, count } => PostEffect::ShowCommandPalette {
            register,
            count,
        },
        PostAction::RestoreLastPicker => {
            match compositor.last_picker.take() {
                Some(picker) => {
                    let (width, height) = compositor.push(picker);
                    PostEffect::RequireSize(width, height)
                },
                None => PostEffect::SetError("no last picker".to_owned()),
            }
        },
        PostAction::ReplayKeys { keys, count, pop_macro_replaying } => PostEffect::ReplayKeys {
            keys,
            count,
            pop_macro_replaying,
        },
        PostAction::Batch(actions) => PostEffect::Each(actions),
    }
}

/// What follows a change of the text that a completion filters by.
#[derive(Debug, Clone, Copy, PartialEq, Eq, Structural)]
pub enum FilterStep {
    /// The completion goes.
    Clear,
    /// The completion goes, and a new one may come.
    ClearAndTrigger,
    /// What the completion is missing is asked for.
    RequestIncomplete,
}

/// A completion goes when nothing is left of it or when a character ends the word. `ends_word`
/// says that the character typed, if one was, does not belong to a word.
pub fn completion_filter_step(empty: bool, typed: bool, ends_word: bool) -> (r: FilterStep)
    ensures
        r == if empty || (typed && ends_word) {
            if typed {
                FilterStep::ClearAndTrigger
            } else {
                FilterStep::Clear
            }
        } else {
            FilterStep::RequestIncomplete
        },
{
    if empty || (typed && ends_word) {
        if typed {
            FilterStep::ClearAndTrigger
        } else {
            FilterStep::Clear
        }
    } else {
        FilterStep::RequestIncomplete
    }
}

/// A remembered picker comes back as the front layer, and the stack is as it was before the
/// picker was put away.
pub proof fn law_restoring_brings_the_picker_back<C>(stack: Stack<C>, model_layer: Option<u64>)
    requires
        stack.layers.len() > 0,
    ensures
        acted(
            acted(stack, PostAction::PopLayer { model_layer, remember_picker: true }),
            PostAction::RestoreLastPicker,
        ).layers == stack.layers,
{
    assert(stack.layers.drop_last().push(stack.layers.last()) =~= stack.layers);
}

/// After a layer is replaced by its id, the new one is in front.
pub proof fn law_replaced_layers_come_to_the_front<C>(stack: Stack<C>, id: String, layer: Layer<C>)
    ensures
        acted(stack, PostAction::ReplaceOrPushLayer { id, layer }).layers.last() == layer,
{
}

/// Taking a layer away by its id takes the first with it and leaves the others, in order; nothing
/// happens if there is none.
pub proof fn law_one_layer_is_removed<C>(stack: Stack<C>, id: String, i: int)
    requires
        0 <= i < stack.layers.len(),
    ensures
        ({
            let after = acted(stack, PostAction::RemoveById(id));
            &&& after.last_picker == stack.last_picker
            &&& stack.layers[i].has_id(id@) && (forall|j: int|
                0 <= j < i ==> !(#[trigger] stack.layers[j]).has_id(id@)) ==> after.layers
                == stack.layers.remove(i)
            &&& (forall|j: int|
                0 <= j < stack.layers.len() ==> !(#[trigger] stack.layers[j]).has_id(id@))
                ==> after.layers == stack.layers
        }),
{
    compositor::law_the_first_layer_with_an_id_is_found(stack.layers, id@);
}

/// A layer that is pushed is in front; taking it away again gives back what was there. A new
/// picker makes the one before be forgotten, and no other layer does.
pub proof fn law_pushed_layers_are_in_front<C>(stack: Stack<C>, layer: Layer<C>)
    ensures
        ({
            let after = acted(stack, PostAction::PushLayer(layer));
            let popped = acted(
                after,
                PostAction::PopLayer { model_layer: None, remember_picker: false },
            );
            &&& after.layers.len() == stack.layers.len() + 1
            &&& after.layers.last() == layer
            &&& after.layers.drop_last() == stack.layers
            &&& popped.layers == stack.layers
            &&& (layer.id matches Some(id) && id@ == "picker"@) ==> after.last_picker is None
            &&& !(layer.id matches Some(id) && id@ == "picker"@) ==> after.last_picker
                == stack.last_picker
        }),
{
    assert(stack.layers.push(layer).drop_last() =~= stack.layers);
}

/// A layer that comes in has to know how large the terminal is; one that goes takes its model
/// along. That there is no picker to bring back is told, and all else is handed on as it is.
pub proof fn law_actions_leave_what_they_ask_for<C>(
    stack: Stack<C>,
    area: Rect,
    action: PostAction<C>,
    effect: PostEffect<C>,
)
    requires
        leaves(stack, area, action, effect),
    ensures
        action is PushLayer || action is ReplaceOrPushLayer || (action is RestoreLastPicker
            && stack.last_picker is Some) ==> effect == PostEffect::<C>::RequireSize(
            area.width,
            area.height,
        ),
        action is RestoreLastPicker && stack.last_picker is None ==> effect is SetError,
        action matches PostAction::PopLayer { model_layer: Some(id), .. } ==> effect
            == PostEffect::<C>::RemoveModelLayer(id),
        action matches PostAction::Batch(actions) ==> effect == PostEffect::Each(actions),
        action matches PostAction::UpdateCompletionFilter(c) ==> effect
            == PostEffect::<C>::UpdateCompletionFilter(c),
        action is ClearCompletion ==> effect is ClearCompletion,
        action matches PostAction::ReplayKeys { keys, count, pop_macro_replaying } ==> effect
            == (PostEffect::<C>::ReplayKeys { keys, count, pop_macro_replaying }),
{
}

/// What only asks for something to be done elsewhere changes no layer.
pub proof fn law_other_actions_change_no_layer<C>(stack: Stack<C>, action: PostAction<C>)
    ensures
        action is UpdateCompletionFilter || action is ClearCompletion || action
            is ShowCommandPalette || action is ReplayKeys || action is Batch ==> acted(stack, action)
            == stack,
        action is RestoreLastPicker && stack.last_picker is None ==> acted(stack, action) == stack,
        stack.layers.len() > 0 && (action matches PostAction::PopLayer { remember_picker: false, .. })
            ==> acted(stack, action).layers == stack.layers.drop_last() && acted(
            stack,
            action,
        ).last_picker == stack.last_picker,
        stack.layers.len() > 0 && (action matches PostAction::PopLayer { remember_picker: true, .. })
            ==> acted(stack, action).last_picker == Some(stack.layers.last()),
{
}

/// Where no layer is left none can go.
pub proof fn law_an_empty_stack_stays_empty<C>(stack: Stack<C>, action: PostAction<C>)
    requires
        stack.layers.len() == 0,
        action is PopLayer,
    ensures
        acted(stack, action).layers.len() == 0,
{
}

/// Layers that go without a model leave nothing to do.
pub proof fn law_layers_without_a_model_leave_nothing<C>(
    stack: Stack<C>,
    area: Rect,
    action: PostAction<C>,
    effect: PostEffect<C>,
)
    requires
        leaves(stack, area, action, effect),
    ensures
        action is RemoveById ==> effect is Nothing,
        action matches PostAction::PopLayer { model_layer: None, .. } ==> effect is Nothing,
        action matches PostAction::ShowCommandPalette { register, count } ==> effect
            == (PostEffect::<C>::ShowCommandPalette { register, count }),
{
}

} // verus!
