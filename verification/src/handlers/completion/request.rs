//! When completions are asked for.

use vstd::prelude::*;

use crate::handlers::debounce;
use crate::handlers::debounce::{deadline_after, due};
use crate::sorting;
use crate::sorting::{sort, Ranked};
use crate::text::chars_of;

verus! {

/// How long a typed trigger character rests, in milliseconds.
pub const TRIGGER_CHAR_DELAY: u64 = 5;

/// Why completions are asked for.
#[derive(Debug, Clone, Copy, PartialEq, Eq, Structural)]
pub enum TriggerKind {
    Auto,
    TriggerChar,
    Manual,
}

/// Where completions are asked for, and why.
#[derive(Debug, Clone, Copy, PartialEq, Eq, Structural)]
pub struct Trigger {
    pub pos: usize,
    pub view: u64,
    pub doc: u64,
    pub kind: TriggerKind,
}

#[derive(Debug, Clone, Copy, PartialEq, Eq, Structural)]
pub enum CompletionEvent {
    AutoTrigger { cursor: usize, doc: u64, view: u64 },
    TriggerChar { cursor: usize, doc: u64, view: u64 },
    ManualTrigger { cursor: usize, doc: u64, view: u64 },
    Cancel,
    /// Text was deleted, and the cursor is here now.
    DeleteText { cursor: usize },
}

#[derive(Debug, Clone, Copy, PartialEq, Eq, Structural)]
pub struct CompletionHandler {
    /// Where completions were last asked for, until that is called off.
    pub trigger: Option<Trigger>,
    /// When they are asked for, while that is still to come.
    pub deadline: Option<u64>,
}

/// What an event triggers, and after which rest.
pub open spec fn triggered(event: CompletionEvent, timeout: u64) -> Option<(Trigger, u64)> {
    match event {
        CompletionEvent::AutoTrigger { cursor, doc, view } => Some(
            (Trigger { pos: cursor, view, doc, kind: TriggerKind::Auto }, timeout),
        ),
        CompletionEvent::TriggerChar { cursor, doc, view } => Some(
            (
                Trigger { pos: cursor, view, doc, kind: TriggerKind::TriggerChar },
                TRIGGER_CHAR_DELAY,
            ),
        ),
        CompletionEvent::ManualTrigger { cursor, doc, view } => Some(
            (Trigger { pos: cursor, view, doc, kind: TriggerKind::Manual }, 0u64),
        ),
        _ => None,
    }
}

/// An event calls completions off: by itself, or because what they were for is deleted.
pub open spec fn calls_off(handler: CompletionHandler, event: CompletionEvent) -> bool {
    match event {
        CompletionEvent::Cancel => true,
        CompletionEvent::DeleteText { cursor } => handler.trigger matches Some(trigger) && cursor
            < trigger.pos,
        _ => false,
    }
}

/// What an event does.
pub open spec fn after_event(
    handler: CompletionHandler,
    event: CompletionEvent,
    timeout: u64,
    now: u64,
) -> CompletionHandler {
    match triggered(event, timeout) {
        Some((trigger, delay)) => CompletionHandler {
            trigger: Some(trigger),
            deadline: Some(debounce::later(now, delay)),
        },
        None => if calls_off(handler, event) {
            CompletionHandler { trigger: None, deadline: None }
        } else {
            handler
        },
    }
}

impl CompletionHandler {
    /// What is still to come has a place.
    pub open spec fn wf(self) -> bool {
        self.deadline is Some ==> self.trigger is Some
    }

    pub fn new() -> (r: CompletionHandler)
        ensures
            r == (CompletionHandler { trigger: None, deadline: None }),
            r.wf(),
    {
        CompletionHandler { trigger: None, deadline: None }
    }

    /// A trigger takes the place of the one before, and rests.
    fn schedule(&mut self, trigger: Trigger, delay: u64, now: u64)
        ensures
            *final(self) == (CompletionHandler {
                trigger: Some(trigger),
                deadline: Some(debounce::later(now, delay)),
            }),
    {
        self.trigger = Some(trigger);
        self.deadline = Some(deadline_after(now, delay));
    }

    /// Takes in an event. `timeout` is how long typing rests before completions are asked for.
    pub fn event(&mut self, event: CompletionEvent, timeout: u64, now: u64)
        ensures
            *final(self) == after_event(*old(self), event, timeout, now),
            old(self).wf() ==> final(self).wf(),
    {
        match event {
            CompletionEvent::AutoTrigger { cursor, doc, view } => {
                self.schedule(
                    Trigger { pos: cursor, view, doc, kind: TriggerKind::Auto },
                    timeout,
                    now,
                );
            },
            CompletionEvent::TriggerChar { cursor, doc, view } => {
                self.schedule(
                    Trigger { pos: cursor, view, doc, kind: TriggerKind::TriggerChar },
                    TRIGGER_CHAR_DELAY,
                    now,
                );
            },
            CompletionEvent::ManualTrigger { cursor, doc, view } => {
                self.schedule(
                    Trigger { pos: cursor, view, doc, kind: TriggerKind::Manual },
                    0,
                    now,
                );
            },
            CompletionEvent::Cancel => {
                self.trigger = None;
                self.deadline = None;
            },
            CompletionEvent::DeleteText { cursor } => {
                let gone = match self.trigger {
                    Some(trigger) => cursor < trigger.pos,
                    None => false,
                };
                if gone {
                    self.trigger = None;
                    self.deadline = None;
                }
            },
        }
    }

    /// Once the rest is over, where completions are asked for.
    pub fn tick(&mut self, now: u64) -> (r: Option<Trigger>)
        requires
            old(self).wf(),
        ensures
            final(self).wf(),
            if debounce::is_due(old(self).deadline, now) {
                r == old(self).trigger && r is Some && *final(self) == (CompletionHandler {
                    deadline: None,
                    ..*old(self)
                })
            } else {
                r is None && *final(self) == *old(self)
            },
    {
        if !due(self.deadline, now) {
            return None;
        }
        self.deadline = None;
        self.trigger
    }
}

/// After completions were called off they are not asked for, until something triggers them.
pub proof fn law_called_off_completions_are_not_asked_for(
    handler: CompletionHandler,
    event: CompletionEvent,
    timeout: u64,
    now: u64,
    then: u64,
)
    requires
        calls_off(handler, event),
    ensures
        !debounce::is_due(after_event(handler, event, timeout, now).deadline, then),
        after_event(handler, event, timeout, now).trigger is None,
{
}

/// Texts in the order of their characters.
pub open spec fn text_at_most(a: Seq<char>, b: Seq<char>) -> bool
    decreases a.len(),
{
    if a.len() == 0 {
        true
    } else if b.len() == 0 {
        false
    } else if a[0] == b[0] {
        text_at_most(a.drop_first(), b.drop_first())
    } else {
        (a[0] as int) < (b[0] as int)
    }
}

proof fn lemma_text_total(a: Seq<char>, b: Seq<char>)
    ensures
        text_at_most(a, b) || text_at_most(b, a),
    decreases a.len(),
{
    if a.len() > 0 && b.len() > 0 && a[0] == b[0] {
        lemma_text_total(a.drop_first(), b.drop_first());
    }
}

proof fn lemma_text_transitive(a: Seq<char>, b: Seq<char>, c: Seq<char>)
    requires
        text_at_most(a, b),
        text_at_most(b, c),
    ensures
        text_at_most(a, c),
    decreases a.len(),
{
    if a.len() > 0 && b.len() > 0 && c.len() > 0 && a[0] == b[0] && b[0] == c[0] {
        lemma_text_transitive(a.drop_first(), b.drop_first(), c.drop_first());
    }
}

fn comes_before(a: char, b: char) -> (r: bool)
    ensures
        r == ((a as int) < (b as int)),
{
    (a as u32) < (b as u32)
}

impl Ranked for String {
    open spec fn at_most(&self, other: &Self) -> bool {
        text_at_most(self@, other@)
    }

    proof fn total(a: &Self, b: &Self) {
        lemma_text_total(a@, b@);
    }

    proof fn transitive(a: &Self, b: &Self, c: &Self) {
        lemma_text_transitive(a@, b@, c@);
    }

    fn not_after(&self, other: &Self) -> (r: bool) {
        let a = chars_of(self.as_str());
        let b = chars_of(other.as_str());
        let mut i: usize = 0;
        assert(a@.skip(0) =~= a@);
        assert(b@.skip(0) =~= b@);
        while i < a.len()
            invariant
                i <= a@.len(),
                i <= b@.len(),
                text_at_most(a@, b@) == text_at_most(a@.skip(i as int), b@.skip(i as int)),
                a@ == self@,
                b@ == other@,
            decreases a@.len() - i,
        {
            assert(a@.skip(i as int)[0] == a@[i as int]);
            assert(a@.skip(i as int).drop_first() =~= a@.skip(i + 1));
            if i >= b.len() {
                return false;
            }
            assert(b@.skip(i as int)[0] == b@[i as int]);
            assert(b@.skip(i as int).drop_first() =~= b@.skip(i + 1));
            if a[i] != b[i] {
                return comes_before(a[i], b[i]);
            }
            i += 1;
        }
        true
    }
}

/// A completion that a server offers.
#[derive(Debug)]
pub struct OfferedItem<T> {
    pub label: String,
    /// What it is sorted by, if not by its label.
    pub sort_text: Option<String>,
    pub item: T,
}

pub open spec fn sort_key<T>(item: OfferedItem<T>) -> String {
    match item.sort_text {
        Some(text) => text,
        None => item.label,
    }
}

/// An answer of a server: items alone, or a list that may go on.
#[derive(Debug)]
#[allow(inconsistent_fields)]
pub enum OfferedItems<T> {
    Array(Vec<OfferedItem<T>>),
    List { is_incomplete: bool, items: Vec<OfferedItem<T>> },
}

/// The items of an answer in their order, and whether there may be more.
#[derive(Debug)]
pub struct SortedItems<T> {
    pub items: Vec<(String, T)>,
    pub is_incomplete: bool,
}

pub open spec fn keyed<T>(items: Seq<OfferedItem<T>>) -> Seq<(String, T)> {
    items.map_values(|item: OfferedItem<T>| (sort_key(item), item.item))
}

pub open spec fn items_of<T>(answer: Option<OfferedItems<T>>) -> Seq<OfferedItem<T>> {
    match answer {
        Some(OfferedItems::Array(items)) => items@,
        Some(OfferedItems::List { items, .. }) => items@,
        None => seq![],
    }
}

/// Puts the items of an answer in order: by what they are to be sorted by, or else by their
/// labels. No answer is an empty one.
pub fn sort_offered_items<T>(answer: Option<OfferedItems<T>>) -> (r: SortedItems<T>)
    ensures
        r.items@ == sorting::sorted(keyed(items_of(answer))),
        r.is_incomplete == (answer matches Some(OfferedItems::List { is_incomplete, .. })
            && is_incomplete),
{
    let (items, is_incomplete): (Vec<OfferedItem<T>>, bool) = match answer {
        Some(OfferedItems::Array(items)) => (items, false),
        Some(OfferedItems::List { is_incomplete, items }) => (items, is_incomplete),
        None => (Vec::new(), false),
    };
    let ghost all = items@;
    assert(all =~= items_of(answer));
    let mut pairs: Vec<(String, T)> = Vec::new();
    for item in it: items
        invariant
            it.seq() == all,
            pairs@.len() == it.index(),
            forall|j: int|
                0 <= j < it.index() ==> #[trigger] pairs@[j] == (sort_key(all[j]), all[j].item),
    {
        let key = match item.sort_text {
            Some(text) => text,
            None => item.label,
        };
        pairs.push((key, item.item));
    }
    assert(pairs@ =~= keyed(all));
    SortedItems { items: sort(pairs), is_incomplete }
}

/// Whoever asks by hand is served at once; after a trigger character there is a short rest and
/// after typing the usual one. The last that was asked counts.
pub proof fn law_asking_by_hand_is_served_at_once(
    handler: CompletionHandler,
    cursor: usize,
    doc: u64,
    view: u64,
    timeout: u64,
    now: u64,
)
    requires
        now <= u64::MAX - timeout,
        now <= u64::MAX - 5,
    ensures
        ({
            let manual = after_event(
                handler,
                CompletionEvent::ManualTrigger { cursor, doc, view },
                timeout,
                now,
            );
            let character = after_event(
                handler,
                CompletionEvent::TriggerChar { cursor, doc, view },
                timeout,
                now,
            );
            let typed = after_event(
                handler,
                CompletionEvent::AutoTrigger { cursor, doc, view },
                timeout,
                now,
            );
            &&& manual.deadline == Some(now)
            &&& character.deadline == Some((now + 5) as u64)
            &&& typed.deadline == Some((now + timeout) as u64)
            &&& manual.trigger == Some(Trigger { pos: cursor, view, doc, kind: TriggerKind::Manual })
            &&& character.trigger == Some(
                Trigger { pos: cursor, view, doc, kind: TriggerKind::TriggerChar },
            )
            &&& typed.trigger == Some(Trigger { pos: cursor, view, doc, kind: TriggerKind::Auto })
        }),
{
}

/// Deleting calls a question off exactly if it goes back behind where that began.
pub proof fn law_deleting_the_start_calls_off(
    handler: CompletionHandler,
    cursor: usize,
    timeout: u64,
    now: u64,
)
    ensures
        ({
            let after = after_event(
                handler,
                CompletionEvent::DeleteText { cursor },
                timeout,
                now,
            );
            let behind = handler.trigger matches Some(trigger) && cursor < trigger.pos;
            &&& behind ==> after.trigger is None && after.deadline is None
            &&& !behind ==> after == handler
        }),
        after_event(handler, CompletionEvent::Cancel, timeout, now).trigger is None,
{
}

/// Completions are ordered by the text for that, or by their label without one, and each keeps its
/// item.
pub proof fn law_items_are_ordered_by_their_key<T>(items: Seq<OfferedItem<T>>, i: int)
    requires
        0 <= i < items.len(),
    ensures
        keyed(items).len() == items.len(),
        keyed(items)[i].1 == items[i].item,
        items[i].sort_text matches Some(text) ==> keyed(items)[i].0 == text,
        items[i].sort_text is None ==> keyed(items)[i].0 == items[i].label,
{
}

/// Texts are ordered as in a dictionary: one that another goes on from comes first, and else the
/// first character in which they differ decides.
pub proof fn law_texts_are_ordered_as_in_a_dictionary(
    common: Seq<char>,
    a: Seq<char>,
    b: Seq<char>,
)
    ensures
        text_at_most(common, common + b),
        b.len() > 0 ==> !text_at_most(common + b, common),
        a.len() > 0 && b.len() > 0 && a[0] != b[0] ==> (text_at_most(common + a, common + b)
            <==> (a[0] as int) < (b[0] as int)),
    decreases common.len(),
{
    if common.len() > 0 {
        let rest = common.drop_first();
        law_texts_are_ordered_as_in_a_dictionary(rest, a, b);
        assert((common + a).drop_first() =~= rest + a);
        assert((common + b).drop_first() =~= rest + b);
    } else {
        assert(common + a =~= a);
        assert(common + b =~= b);
    }
}

} // verus!
