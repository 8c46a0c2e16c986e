//! How events travel through the layers.

use vstd::prelude::*;

use crate::compositor::{Compositor, Layer, ScrollState};
use crate::geometry::Rect;
use crate::keymap::key::{KeyCode, KeyEvent, SHIFT};
use crate::layout;

verus! {

#[derive(Debug, Clone, Copy, PartialEq, Eq, Structural)]
pub enum MouseButton {
    Left,
    Right,
    Middle,
}

#[derive(Debug, Clone, Copy, PartialEq, Eq, Structural)]
pub enum MouseEventKind {
    Down(MouseButton),
    Up(MouseButton),
    Drag(MouseButton),
    Moved,
    ScrollDown,
    ScrollUp,
    ScrollLeft,
    ScrollRight,
}

#[derive(Debug, Clone, Copy, PartialEq, Eq, Structural)]
pub struct MouseEvent {
    pub kind: MouseEventKind,
    pub column: u16,
    pub row: u16,
    pub modifiers: u8,
}

/// Something that happened at the terminal.
#[derive(Debug)]
pub enum Event {
    Key(KeyEvent),
    Mouse(MouseEvent),
    Resize(u16, u16),
    IdleTimeout,
    Paste(String),
    FocusGained,
    FocusLost,
}

/// All bits but that of the shift key.
pub const NOT_SHIFT: u8 = 0xfe;

/// The character that a letter key types with the shift key.
pub open spec fn shifted(c: char) -> char {
    if 'a' <= c <= 'z' {
        (c as int - 32) as char
    } else {
        c
    }
}

/// A key that types a character is told by the character alone, without the shift key: with it,
/// `j` is `J`.
pub open spec fn canonical_key(key: KeyEvent) -> KeyEvent {
    match key.code {
        KeyCode::Char(c) => KeyEvent {
            code: KeyCode::Char(
                if key.modifiers & SHIFT == 0 {
                    c
                } else {
                    shifted(c)
                },
            ),
            modifiers: key.modifiers & NOT_SHIFT,
        },
        _ => key,
    }
}

pub open spec fn canonical(event: Event) -> Event {
    match event {
        Event::Key(key) => Event::Key(canonical_key(key)),
        other => other,
    }
}

fn shift(c: char) -> (r: char)
    ensures
        r == shifted(c),
{
    if 'a' <= c && c <= 'z' {
        (c as u8 - 32) as char
    } else {
        c
    }
}

/// The form in which every component sees an event.
pub fn canonicalize(event: Event) -> (r: Event)
    ensures
        r == canonical(event),
{
    match event {
        Event::Key(key) => match key.code {
            KeyCode::Char(c) => Event::Key(
                KeyEvent {
                    code: KeyCode::Char(
                        if key.modifiers & SHIFT == 0 {
                            c
                        } else {
                            shift(c)
                        },
                    ),
                    modifiers: key.modifiers & NOT_SHIFT,
                },
            ),
            _ => Event::Key(key),
        },
        other => other,
    }
}

/// A canonical key that types a character has no shift, and what is canonical stays; a letter with
/// shift is the capital letter.
pub proof fn law_canonical_keys_have_no_shift(key: KeyEvent)
    ensures
        canonical_key(canonical_key(key)) == canonical_key(key),
        key.code is Char ==> canonical_key(key).modifiers & SHIFT == 0,
        key.code matches KeyCode::Char(c) ==> canonical_key(
            (KeyEvent { modifiers: key.modifiers | SHIFT, ..key }),
        ) == canonical_key(
            (KeyEvent { code: KeyCode::Char(shifted(c)), modifiers: key.modifiers & NOT_SHIFT }),
        ),
{
    let m = key.modifiers;
    assert((m & 0xfeu8) & 0xfeu8 == m & 0xfeu8) by (bit_vector);
    assert((m & 0xfeu8) & 1u8 == 0u8) by (bit_vector);
    assert((m | 1u8) & 0xfeu8 == m & 0xfeu8) by (bit_vector);
    assert((m | 1u8) & 1u8 != 0u8) by (bit_vector);
}

/// The recording of a macro.
pub struct MacroState {
    /// The keys recorded so far, while a macro is being recorded.
    pub recording: Option<Vec<KeyEvent>>,
    /// The macros that are being replayed, by their register.
    pub replaying: Vec<char>,
}

impl MacroState {
    /// The keys recorded so far.
    pub open spec fn keys(&self) -> Option<Seq<KeyEvent>> {
        match self.recording {
            Some(keys) => Some(keys@),
            None => None,
        }
    }

    /// The keys recorded once the event has come: a key is recorded while a macro is being
    /// recorded, unless a macro types it.
    pub open spec fn keys_after(&self, event: Event) -> Option<Seq<KeyEvent>> {
        match (event, self.keys()) {
            (Event::Key(key), Some(keys)) => if self.replaying@.len() == 0 {
                Some(keys.push(key))
            } else {
                Some(keys)
            },
            (_, keys) => keys,
        }
    }

    /// Takes note of an event: a key is recorded while a macro is being recorded, unless a macro
    /// types it.
    pub fn note(&mut self, event: &Event)
        ensures
            final(self).replaying == old(self).replaying,
            final(self).keys() == old(self).keys_after(*event),
    {
        if let Event::Key(key) = event {
            if self.replaying.len() == 0 {
                if let Some(keys) = &mut self.recording {
                    keys.push(*key);
                }
            }
        }
    }

    /// A replayed macro has ended.
    pub fn pop_replaying(&mut self)
        ensures
            final(self).recording == old(self).recording,
            final(self).replaying@ == if old(self).replaying@.len() > 0 {
                old(self).replaying@.drop_last()
            } else {
                old(self).replaying@
            },
    {
        let _ = self.replaying.pop();
    }
}

/// How many lines one turn of the wheel scrolls.
pub const SCROLL_LINES: usize = 3;

/// Where a turn of the wheel leaves a component.
pub open spec fn scrolled(scroll: ScrollState, kind: MouseEventKind) -> ScrollState {
    match kind {
        MouseEventKind::ScrollUp => ScrollState {
            current: if scroll.current >= SCROLL_LINES {
                (scroll.current - SCROLL_LINES) as usize
            } else {
                0
            },
            ..scroll
        },
        MouseEventKind::ScrollDown => ScrollState {
            current: if scroll.current + SCROLL_LINES <= scroll.max {
                (scroll.current + SCROLL_LINES) as usize
            } else {
                scroll.max
            },
            ..scroll
        },
        _ => scroll,
    }
}

/// The layer after a click on a panel, or outside of all panels: what can have the focus has it
/// if and only if it belongs to that panel.
pub open spec fn refocused<C>(layer: Layer<C>, clicked: Option<u64>) -> Layer<C> {
    if layer.focusable {
        Layer { focused: clicked is Some && layer.panel_id == clicked, ..layer }
    } else {
        layer
    }
}

/// The first layer of the panel that can be scrolled, or the number of layers.
pub open spec fn first_scrollable<C>(layers: Seq<Layer<C>>, panel: u64) -> int
    decreases layers.len(),
{
    if layers.len() == 0 || (layers[0].panel_id == Some(panel) && layers[0].scroll is Some) {
        0
    } else {
        1 + first_scrollable(layers.skip(1), panel)
    }
}

proof fn lemma_first_scrollable<C>(layers: Seq<Layer<C>>, panel: u64, i: int)
    requires
        0 <= i <= layers.len(),
        forall|j: int|
            0 <= j < i ==> !((#[trigger] layers[j]).panel_id == Some(panel) && layers[j].scroll is Some),
        i < layers.len() ==> layers[i].panel_id == Some(panel) && layers[i].scroll is Some,
    ensures
        first_scrollable(layers, panel) == i,
    decreases i,
{
    if i > 0 {
        assert forall|j: int| 0 <= j < i - 1 implies !((#[trigger] layers.skip(1)[j]).panel_id
            == Some(panel) && layers.skip(1)[j].scroll is Some) by {
            let l = layers[j + 1];
        }
        let l = layers[0];
        lemma_first_scrollable(layers.skip(1), panel, i - 1);
    }
}

/// Who gets a turn of the mouse.
#[derive(Debug, Clone, Copy, PartialEq, Eq, Structural)]
pub enum MouseRoute {
    /// The layers, as any other event.
    Layers,
    /// The info box, which scrolls by so many lines.
    InfoBox(i32),
    /// A panel, which has scrolled.
    Panel,
}

impl<C> Compositor<C> {
    /// The panel of the last frame under a cell.
    pub open spec fn panel_under(self, column: u16, row: u16) -> Option<u64> {
        match self.last_layout {
            Some(layout) => layout::panel_at(layout.panel_areas@, column, row),
            None => None,
        }
    }

    /// Everything but the layers stays as it was.
    pub open spec fn same_but_layers(self, other: Self) -> bool {
        self.same_frame(other) && self.last_picker == other.last_picker
    }

    /// Gives the focus to the panel under a click, and takes it from all others.
    pub fn handle_mouse_panel_focus(&mut self, column: u16, row: u16)
        ensures
            final(self).same_but_layers(*old(self)),
            final(self).layers@.len() == old(self).layers@.len(),
            forall|i: int|
                0 <= i < old(self).layers@.len() ==> #[trigger] final(self).layers@[i] == if old(
                    self,
                ).last_layout is Some {
                    refocused(old(self).layers@[i], old(self).panel_under(column, row))
                } else {
                    old(self).layers@[i]
                },
            // Of what can have the focus exactly what belongs to the clicked panel has it.
            old(self).last_layout is Some ==> forall|i: int|
                0 <= i < final(self).layers@.len() && (#[trigger] final(self).layers@[i]).focusable
                    ==> (final(self).layers@[i].focused <==> {
                    &&& old(self).panel_under(column, row) is Some
                    &&& final(self).layers@[i].panel_id == old(self).panel_under(column, row)
                }),
    {
        let clicked = match &self.last_layout {
            Some(layout) => layout.panel_at(column, row),
            None => {
                return;
            },
        };
        let mut i: usize = 0;
        while i < self.layers.len()
            invariant
                i <= self.layers@.len(),
                self.same_but_layers(*old(self)),
                self.layers@.len() == old(self).layers@.len(),
                forall|j: int|
                    0 <= j < i ==> #[trigger] self.layers@[j] == refocused(
                        old(self).layers@[j],
                        clicked,
                    ),
                forall|j: int|
                    i <= j < self.layers@.len() ==> #[trigger] self.layers@[j] == old(
                        self,
                    ).layers@[j],
            decreases self.layers@.len() - i,
        {
            assert(self.layers@[i as int] == old(self).layers@[i as int]);
            if self.layers[i].focusable {
                let target = match (clicked, self.layers[i].panel_id) {
                    (Some(panel), Some(own)) => panel == own,
                    _ => false,
                };
                self.layers[i].focused = target;
            }
            i += 1;
        }
    }

    /// Scrolls the panel under the mouse; returns whether there was one to scroll.
    pub fn handle_mouse_panel_scroll(&mut self, mouse: &MouseEvent) -> (handled: bool)
        requires
            old(self).scroll_fits(*mouse),
        ensures
            final(self).same_but_layers(*old(self)),
            final(self).layers@.len() == old(self).layers@.len(),
            ({
                let layers = old(self).layers@;
                match old(self).panel_under(mouse.column, mouse.row) {
                    None => !handled && final(self).layers@ == layers,
                    Some(panel) => {
                        let at = first_scrollable(layers, panel);
                        if at < layers.len() {
                            handled && final(self).layers@ == layers.update(
                                at,
                                (Layer {
                                    scroll: Some(scrolled(layers[at].scroll->0, mouse.kind)),
                                    ..layers[at]
                                }),
                            )
                        } else {
                            !handled && final(self).layers@ == layers
                        }
                    },
                }
            }),
    {
        let panel = match &self.last_layout {
            Some(layout) => match layout.panel_at(mouse.column, mouse.row) {
                Some(panel) => panel,
                None => {
                    return false;
                },
            },
            None => {
                return false;
            },
        };
        let mut i: usize = 0;
        while i < self.layers.len()
            invariant
                i <= self.layers@.len(),
                *self == *old(self),
                old(self).panel_under(mouse.column, mouse.row) == Some(panel),
                old(self).scroll_fits(*mouse),
                forall|j: int|
                    0 <= j < i ==> !((#[trigger] self.layers@[j]).panel_id == Some(panel)
                        && self.layers@[j].scroll is Some),
            decreases self.layers@.len() - i,
        {
            let own = match self.layers[i].panel_id {
                Some(own) => own == panel,
                None => false,
            };
            if own {
                if let Some(scroll) = self.layers[i].scroll {
                    proof {
                        lemma_first_scrollable(self.layers@, panel, i as int);
                        assert(old(self).layers@[i as int].scroll == Some(scroll));
                    }
                    let current: usize = match mouse.kind {
                        MouseEventKind::ScrollUp => scroll.current.saturating_sub(SCROLL_LINES),
                        MouseEventKind::ScrollDown => if scroll.current + SCROLL_LINES
                            <= scroll.max {
                            scroll.current + SCROLL_LINES
                        } else {
                            scroll.max
                        },
                        _ => scroll.current,
                    };
                    self.layers[i].scroll = Some(ScrollState { current, max: scroll.max });
                    proof {
                        assert(self.layers@ =~= old(self).layers@.update(
                            i as int,
                            (Layer {
                                scroll: Some(scrolled(scroll, mouse.kind)),
                                ..old(self).layers@[i as int]
                            }),
                        ));
                    }
                    return true;
                }
            }
            i += 1;
        }
        proof {
            lemma_first_scrollable(self.layers@, panel, i as int);
        }
        false
    }

    /// Where the wheel turns down over a panel, what is shown there is not scrolled so far that one
    /// more turn cannot be counted.
    pub open spec fn scroll_fits(self, mouse: MouseEvent) -> bool {
        let layers = self.layers@;
        mouse.kind == MouseEventKind::ScrollDown ==> match self.panel_under(
            mouse.column,
            mouse.row,
        ) {
            Some(panel) => {
                let at = first_scrollable(layers, panel);
                at < layers.len() ==> layers[at].scroll->0.current <= usize::MAX - SCROLL_LINES
            },
            None => true,
        }
    }

    /// What an event scrolls can be counted.
    pub open spec fn can_enter(self, event: Event, info_area: Option<Rect>) -> bool {
        event matches Event::Mouse(mouse) ==> info_takes(info_area, mouse) || self.scroll_fits(
            mouse,
        )
    }

    /// A mouse event goes to `route` and leaves `after`: a click moves the focus, and the wheel
    /// scrolls the info box or else a panel under it.
    pub open spec fn routes(
        self,
        mouse: MouseEvent,
        info_area: Option<Rect>,
        route: MouseRoute,
        after: Self,
    ) -> bool {
        let layers = self.layers@;
        let panel = self.panel_under(mouse.column, mouse.row);
        &&& after.same_but_layers(self)
        &&& after.layers@.len() == layers.len()
        &&& match mouse.kind {
            MouseEventKind::Down(MouseButton::Left) => {
                &&& route == MouseRoute::Layers
                &&& forall|i: int|
                    0 <= i < layers.len() ==> #[trigger] after.layers@[i]
                        == if self.last_layout is Some {
                        refocused(layers[i], panel)
                    } else {
                        layers[i]
                    }
            },
            MouseEventKind::ScrollUp | MouseEventKind::ScrollDown => if info_takes(
                info_area,
                mouse,
            ) {
                &&& route == MouseRoute::InfoBox(
                    if mouse.kind == MouseEventKind::ScrollUp {
                        -3i32
                    } else {
                        3i32
                    },
                )
                &&& after.layers@ == layers
            } else if panel is Some && first_scrollable(layers, panel->0) < layers.len() {
                let at = first_scrollable(layers, panel->0);
                &&& route == MouseRoute::Panel
                &&& after.layers@ == layers.update(
                    at,
                    (Layer { scroll: Some(scrolled(layers[at].scroll->0, mouse.kind)), ..layers[at] }),
                )
            } else {
                route == MouseRoute::Layers && after.layers@ == layers
            },
            _ => route == MouseRoute::Layers && after.layers@ == layers,
        }
    }

    /// Deals with a mouse event before the layers see it: a click moves the focus, and the wheel
    /// scrolls the info box (where one is shown, in `info_area`) or else a panel under it.
    pub fn route_mouse(&mut self, mouse: &MouseEvent, info_area: Option<Rect>) -> (r: MouseRoute)
        requires
            info_takes(info_area, *mouse) || old(self).scroll_fits(*mouse),
        ensures
            old(self).routes(*mouse, info_area, r, *final(self)),
    {
        match mouse.kind {
            MouseEventKind::Down(MouseButton::Left) => {
                self.handle_mouse_panel_focus(mouse.column, mouse.row);
                MouseRoute::Layers
            },
            MouseEventKind::ScrollUp | MouseEventKind::ScrollDown => {
                if let Some(lines) = handle_autoinfo_scroll(mouse, info_area) {
                    return MouseRoute::InfoBox(lines);
                }
                if self.handle_mouse_panel_scroll(mouse) {
                    MouseRoute::Panel
                } else {
                    MouseRoute::Layers
                }
            },
            _ => MouseRoute::Layers,
        }
    }
}

/// Whether the mouse is over the info box.
pub open spec fn info_takes(info_area: Option<Rect>, mouse: MouseEvent) -> bool {
    match info_area {
        Some(area) => area.has(mouse.column as int, mouse.row as int),
        None => false,
    }
}

/// How far the info box, if one is shown, scrolls under the mouse; nothing where the mouse is not
/// over it.
pub fn handle_autoinfo_scroll(mouse: &MouseEvent, info_area: Option<Rect>) -> (r: Option<i32>)
    ensures
        r == if info_takes(info_area, *mouse) {
            match mouse.kind {
                MouseEventKind::ScrollUp => Some(-3i32),
                MouseEventKind::ScrollDown => Some(3i32),
                _ => Some(0i32),
            }
        } else {
            None
        },
{
    match info_area {
        Some(area) => {
            if !area.contains(mouse.column, mouse.row) {
                return None;
            }
            match mouse.kind {
                MouseEventKind::ScrollUp => Some(-3),
                MouseEventKind::ScrollDown => Some(3),
                _ => Some(0),
            }
        },
        None => None,
    }
}

/// What a layer did with an event, and what it wants done afterwards.
pub enum EventResult<A> {
    Ignored(Option<A>),
    Consumed(Option<A>),
}

/// What has come of an event on its way through the layers.
pub struct Bubbled<A> {
    pub consumed: bool,
    pub actions: Seq<A>,
}

/// One more layer has answered.
pub open spec fn answered<A>(so_far: Bubbled<A>, result: EventResult<A>) -> Bubbled<A> {
    let (consumed, action) = match result {
        EventResult::Ignored(action) => (false, action),
        EventResult::Consumed(action) => (true, action),
    };
    Bubbled {
        consumed,
        actions: match action {
            Some(a) => so_far.actions.push(a),
            None => so_far.actions,
        },
    }
}

/// What comes of an event to which the layers, from the front to the back, would answer with
/// `results`: the first to consume it is the last to be asked.
pub open spec fn bubbled<A>(results: Seq<EventResult<A>>) -> Bubbled<A>
    decreases results.len(),
{
    if results.len() == 0 {
        Bubbled { consumed: false, actions: seq![] }
    } else {
        let before = bubbled(results.drop_last());
        if before.consumed {
            before
        } else {
            answered(before, results.last())
        }
    }
}

/// An event on its way through the layers.
pub struct Dispatch<A> {
    /// How many layers have not been asked.
    pub remaining: usize,
    pub consumed: bool,
    pub actions: Vec<A>,
}

impl<A> Dispatch<A> {
    pub open spec fn so_far(&self) -> Bubbled<A> {
        Bubbled { consumed: self.consumed, actions: self.actions@ }
    }

    /// An event enters a stack of so many layers.
    pub fn new(layers: usize) -> (r: Self)
        ensures
            r.remaining == layers,
            r.so_far() == bubbled::<A>(seq![]),
    {
        let r = Dispatch { remaining: layers, consumed: false, actions: Vec::new() };
        assert(r.actions@ =~= seq![]);
        r
    }

    /// The layer to be asked next: the front one of those left, until one consumes the event.
    pub fn next_layer(&self) -> (r: Option<usize>)
        ensures
            r == if !self.consumed && self.remaining > 0 {
                Some((self.remaining - 1) as usize)
            } else {
                None
            },
    {
        if self.consumed || self.remaining == 0 {
            None
        } else {
            Some(self.remaining - 1)
        }
    }

    /// The layer that was asked has answered.
    pub fn answer(&mut self, result: EventResult<A>)
        requires
            !old(self).consumed,
            old(self).remaining > 0,
        ensures
            final(self).remaining == old(self).remaining - 1,
            final(self).so_far() == answered(old(self).so_far(), result),
    {
        self.remaining = self.remaining - 1;
        match result {
            EventResult::Consumed(Some(action)) => {
                self.actions.push(action);
                self.consumed = true;
            },
            EventResult::Consumed(None) => {
                self.consumed = true;
            },
            EventResult::Ignored(Some(action)) => {
                self.actions.push(action);
            },
            EventResult::Ignored(None) => {},
        }
    }
}

/// What becomes of an event before the layers are asked.
pub enum Entered<A> {
    /// The info box takes the event, and scrolls by so many lines.
    InfoBox(i32),
    /// A panel takes the event, and has scrolled.
    Panel,
    /// The layers are asked, each of them about this event.
    Layers { event: Event, dispatch: Dispatch<A> },
}

impl<C> Compositor<C> {
    /// The event comes to `entered` and leaves `after`: only the mouse changes anything before
    /// the layers are asked, and only where the info box or a panel takes the event are they not.
    pub open spec fn enters<A>(
        self,
        event: Event,
        info_area: Option<Rect>,
        entered: Entered<A>,
        after: Self,
    ) -> bool {
        match event {
            Event::Mouse(mouse) => exists|route: MouseRoute| #[trigger]
                self.routes(mouse, info_area, route, after) && match route {
                    MouseRoute::InfoBox(lines) => entered == Entered::<A>::InfoBox(lines),
                    MouseRoute::Panel => entered == Entered::<A>::Panel,
                    MouseRoute::Layers => asks(entered, event, self.layers@.len()),
                },
            _ => after == self && asks(entered, canonical(event), self.layers@.len()),
        }
    }

    /// An event enters: it is brought into the form that components see, a key is recorded, and
    /// what the mouse does to panels and to the info box (shown in `info_area`, where it is) is
    /// done. Where neither takes it, the layers are to be asked.
    pub fn handle_event<A>(
        &mut self,
        event: Event,
        macros: &mut MacroState,
        info_area: Option<Rect>,
    ) -> (r: Entered<A>)
        requires
            old(self).can_enter(event, info_area),
        ensures
            final(macros).replaying == old(macros).replaying,
            final(macros).keys() == old(macros).keys_after(canonical(event)),
            old(self).enters(event, info_area, r, *final(self)),
    {
        let event = canonicalize(event);
        macros.note(&event);
        if let Event::Mouse(mouse) = &event {
            match self.route_mouse(mouse, info_area) {
                MouseRoute::InfoBox(lines) => {
                    return Entered::InfoBox(lines);
                },
                MouseRoute::Panel => {
                    return Entered::Panel;
                },
                MouseRoute::Layers => {},
            }
        }
        let dispatch = Dispatch::new(self.layers.len());
        Entered::Layers { event, dispatch }
    }
}

/// So many layers are to be asked about the event, and none has been.
pub open spec fn asks<A>(entered: Entered<A>, event: Event, layers: nat) -> bool {
    match entered {
        Entered::Layers { event: asked, dispatch } => {
            &&& asked == event
            &&& dispatch.remaining == layers
            &&& dispatch.so_far() == bubbled::<A>(seq![])
        },
        _ => false,
    }
}

/// Taking in one answer after the other, as long as none consumes the event, comes to what the
/// answers come to together.
pub proof fn law_answers_are_taken_in_turn<A>(results: Seq<EventResult<A>>, result: EventResult<A>)
    requires
        !bubbled(results).consumed,
    ensures
        answered(bubbled(results), result) == bubbled(results.push(result)),
{
    assert(results.push(result).drop_last() =~= results);
}

/// Layers behind the one that consumes an event have no say in what comes of it.
pub proof fn law_consumed_events_go_no_further<A>(
    results: Seq<EventResult<A>>,
    more: Seq<EventResult<A>>,
)
    requires
        bubbled(results).consumed,
    ensures
        bubbled(results + more) == bubbled(results),
    decreases more.len(),
{
    if more.len() == 0 {
        assert(results + more =~= results);
    } else {
        law_consumed_events_go_no_further(results, more.drop_last());
        assert((results + more).drop_last() =~= results + more.drop_last());
    }
}

/// An event is consumed if and only if some layer on its way consumes it.
pub proof fn law_events_are_consumed_by_a_layer<A>(results: Seq<EventResult<A>>)
    ensures
        bubbled(results).consumed <==> exists|i: int|
            0 <= i < results.len() && #[trigger] results[i] is Consumed,
    decreases results.len(),
{
    if results.len() > 0 {
        let d = results.drop_last();
        law_events_are_consumed_by_a_layer(d);
        if bubbled(d).consumed {
            let i = choose|i: int| 0 <= i < d.len() && #[trigger] d[i] is Consumed;
            assert(results[i] is Consumed);
        } else if results.last() is Consumed {
            assert(results[results.len() - 1] is Consumed);
        } else {
            assert forall|i: int| 0 <= i < results.len() implies !(#[trigger] results[i] is Consumed) by {
                if i < d.len() {
                    assert(!(d[i] is Consumed));
                }
            }
        }
    }
}

/// After a click on a panel, of everything that can have the focus exactly what belongs to that
/// panel has it, whatever had it before; nothing else about the layers changes.
pub proof fn law_clicks_move_the_focus<C>(
    before: Seq<Layer<C>>,
    after: Seq<Layer<C>>,
    clicked: u64,
)
    requires
        after.len() == before.len(),
        forall|i: int|
            0 <= i < before.len() ==> #[trigger] after[i] == refocused(before[i], Some(clicked)),
    ensures
        forall|i: int|
            0 <= i < after.len() && (#[trigger] after[i]).focusable ==> (after[i].focused
                <==> after[i].panel_id == Some(clicked)),
        forall|i: int, j: int|
            0 <= i < after.len() && 0 <= j < after.len() && (#[trigger] after[i]).focusable && (
            #[trigger] after[j]).focusable && after[i].focused && after[j].focused
                ==> after[i].panel_id == after[j].panel_id,
        forall|i: int|
            0 <= i < after.len() ==> (Layer { focused: before[i].focused, ..#[trigger] after[i] })
                == before[i],
        forall|i: int|
            0 <= i < after.len() && !(#[trigger] after[i]).focusable ==> after[i] == before[i],
{
}

/// After a click beside all panels nothing that can have the focus has it.
pub proof fn law_clicks_beside_panels_take_the_focus<C>(layer: Layer<C>)
    requires
        layer.focusable,
    ensures
        !refocused(layer, None).focused,
        (Layer { focused: layer.focused, ..refocused(layer, None) }) == layer,
{
}

/// A mouse event that a layer sees, or that moves the focus, changes nothing else: ids, types,
/// places and contents of the layers stay, and a click scrolls nothing.
pub proof fn law_the_mouse_moves_no_layer<C>(
    screen: Compositor<C>,
    mouse: MouseEvent,
    info_area: Option<Rect>,
    route: MouseRoute,
    after: Compositor<C>,
    i: int,
)
    requires
        screen.routes(mouse, info_area, route, after),
        0 <= i < screen.layers@.len(),
    ensures
        after.layers@.len() == screen.layers@.len(),
        after.layers@[i].id == screen.layers@[i].id,
        after.layers@[i].component == screen.layers@[i].component,
        after.layers@[i].panel_id == screen.layers@[i].panel_id,
        mouse.kind == MouseEventKind::Down(MouseButton::Left) ==> after.layers@[i].scroll
            == screen.layers@[i].scroll,
        mouse.kind != MouseEventKind::Down(MouseButton::Left) ==> after.layers@[i].focused
            == screen.layers@[i].focused,
        route == MouseRoute::Layers && mouse.kind != MouseEventKind::Down(MouseButton::Left)
            ==> after.layers@[i] == screen.layers@[i],
        after.layers@[i].scroll != screen.layers@[i].scroll ==> {
            &&& route == MouseRoute::Panel
            &&& screen.layers@[i].panel_id == screen.panel_under(mouse.column, mouse.row)
            &&& screen.panel_under(mouse.column, mouse.row) is Some
        },
{
    if screen.panel_under(mouse.column, mouse.row) is Some {
        law_the_first_layer_of_a_panel_is_scrolled(
            screen.layers@,
            screen.panel_under(mouse.column, mouse.row)->0,
        );
    }
}

/// What is scrolled is the first layer of the panel that can be.
pub proof fn law_the_first_layer_of_a_panel_is_scrolled<C>(layers: Seq<Layer<C>>, panel: u64)
    ensures
        ({
            let at = first_scrollable(layers, panel);
            &&& 0 <= at <= layers.len()
            &&& at < layers.len() ==> layers[at].panel_id == Some(panel) && layers[at].scroll is Some
            &&& forall|j: int|
                0 <= j < at && (#[trigger] layers[j]).panel_id == Some(panel) ==> layers[j].scroll
                    is None
        }),
    decreases layers.len(),
{
    if layers.len() > 0 && !(layers[0].panel_id == Some(panel) && layers[0].scroll is Some) {
        law_the_first_layer_of_a_panel_is_scrolled(layers.skip(1), panel);
        let at = first_scrollable(layers, panel);
        assert forall|j: int| 0 <= j < at && (#[trigger] layers[j]).panel_id == Some(
            panel,
        ) implies layers[j].scroll is None by {
            if j > 0 {
                assert(layers.skip(1)[j - 1] == layers[j]);
            }
        }
    }
}

/// A turn of the wheel scrolls by three lines, or to the end where fewer are left.
pub proof fn law_the_wheel_scrolls_three_lines(scroll: ScrollState)
    requires
        scroll.current <= scroll.max,
    ensures
        ({
            let up = scrolled(scroll, MouseEventKind::ScrollUp);
            let down = scrolled(scroll, MouseEventKind::ScrollDown);
            &&& up.max == scroll.max && down.max == scroll.max
            &&& up.current + 3 == scroll.current || (up.current == 0 && scroll.current < 3)
            &&& down.current == scroll.current + 3 || (down.current == scroll.max && scroll.max
                < scroll.current + 3)
            &&& down.current <= scroll.max
            &&& scroll.current >= 3 ==> scrolled(up, MouseEventKind::ScrollDown) == scroll
        }),
{
}

/// The actions of an event are those of the layers that were asked, from the front to the back: up
/// to and with the first that consumes it.
pub proof fn law_actions_come_from_the_front<A>(results: Seq<EventResult<A>>, i: int)
    requires
        0 <= i < results.len(),
        forall|j: int| 0 <= j < i ==> !(#[trigger] results[j] is Consumed),
    ensures
        bubbled(results.take(i + 1)).actions == bubbled(results.take(i)).actions + match results[i] {
            EventResult::Ignored(Some(action)) | EventResult::Consumed(Some(action)) => seq![action],
            _ => seq![],
        },
        results[i] is Consumed ==> bubbled(results) == bubbled(results.take(i + 1)),
{
    let before = results.take(i);
    let upto = results.take(i + 1);
    assert(upto.drop_last() =~= before);
    assert(upto.last() == results[i]);
    law_events_are_consumed_by_a_layer(before);
    if bubbled(before).consumed {
        let j = choose|j: int| 0 <= j < before.len() && #[trigger] before[j] is Consumed;
        assert(results[j] is Consumed);
    }
    assert(bubbled(upto).actions =~= bubbled(before).actions + match results[i] {
        EventResult::Ignored(Some(action)) | EventResult::Consumed(Some(action)) => seq![action],
        _ => seq![],
    });
    if results[i] is Consumed {
        assert(results =~= upto + results.skip(i + 1));
        law_consumed_events_go_no_further(upto, results.skip(i + 1));
    }
}

/// While a macro is recorded every key that is typed is added to it in turn, and no other event;
/// keys that a macro types are not.
pub proof fn law_typed_keys_are_recorded(macros: MacroState, event: Event)
    ensures
        macros.recording is None ==> macros.keys_after(event) is None,
        macros.replaying@.len() > 0 ==> macros.keys_after(event) == macros.keys(),
        !(event is Key) ==> macros.keys_after(event) == macros.keys(),
        event matches Event::Key(key) ==> macros.recording is Some && macros.replaying@.len() == 0
            ==> macros.keys_after(event) == Some(macros.recording->0@.push(key)),
{
}

/// Letters with the shift key are capital letters; no other modifier is lost, and keys that type
/// no character stay as they are.
pub proof fn law_shifted_letters_are_capitals(key: KeyEvent)
    ensures
        canonical_key(
            (KeyEvent { code: KeyCode::Char('j'), modifiers: SHIFT }),
        ) == (KeyEvent { code: KeyCode::Char('J'), modifiers: 0 }),
        !(key.code is Char) ==> canonical_key(key) == key,
        key.modifiers & SHIFT == 0 ==> canonical_key(key) == key,
        canonical_key(key).modifiers | SHIFT == key.modifiers | SHIFT,
        forall|c: char| 'a' <= c <= 'z' ==> 'A' <= #[trigger] shifted(c) <= 'Z' && c as int
            - shifted(c) as int == 'a' as int - 'A' as int,
{
    let m = key.modifiers;
    assert(m & 1u8 == 0u8 ==> m & 0xfeu8 == m) by (bit_vector);
    assert((m & 0xfeu8) | 1u8 == m | 1u8) by (bit_vector);
    assert(1u8 & 1u8 != 0u8) by (bit_vector);
    assert(1u8 & 0xfeu8 == 0u8) by (bit_vector);
}

/// The wheel turns what is under it: the box with information if that lies there, else the panel
/// there if it has something to scroll, and else it is the layers' affair.
pub proof fn law_the_wheel_turns_what_is_under_it<C>(
    screen: Compositor<C>,
    mouse: MouseEvent,
    info_area: Option<Rect>,
    route: MouseRoute,
    after: Compositor<C>,
    i: int,
)
    requires
        screen.routes(mouse, info_area, route, after),
        mouse.kind == MouseEventKind::ScrollUp || mouse.kind == MouseEventKind::ScrollDown,
    ensures
        ({
            let in_box = info_area matches Some(area) && area.has(
                mouse.column as int,
                mouse.row as int,
            );
            let panel = screen.panel_under(mouse.column, mouse.row);
            let layers = screen.layers@;
            &&& in_box && mouse.kind == MouseEventKind::ScrollUp ==> route == MouseRoute::InfoBox(
                -3i32,
            )
            &&& in_box && mouse.kind == MouseEventKind::ScrollDown ==> route == MouseRoute::InfoBox(
                3i32,
            )
            &&& !in_box && panel is Some && 0 <= i < layers.len() && layers[i].panel_id == panel
                && layers[i].scroll is Some && (forall|j: int|
                0 <= j < i && (#[trigger] layers[j]).panel_id == panel ==> layers[j].scroll is None)
                ==> {
                &&& route == MouseRoute::Panel
                &&& after.layers@[i].scroll == Some(scrolled(layers[i].scroll->0, mouse.kind))
            }
            &&& !in_box && (panel is None || forall|j: int|
                0 <= j < layers.len() && (#[trigger] layers[j]).panel_id == panel ==> layers[j].scroll
                    is None) ==> route == MouseRoute::Layers && after.layers@ == layers
        }),
{
    if screen.panel_under(mouse.column, mouse.row) is Some {
        law_the_first_layer_of_a_panel_is_scrolled(
            screen.layers@,
            screen.panel_under(mouse.column, mouse.row)->0,
        );
        let layers = screen.layers@;
        let panel = screen.panel_under(mouse.column, mouse.row);
        let at = first_scrollable(layers, panel->0);
        if 0 <= i < layers.len() && layers[i].panel_id == panel && layers[i].scroll is Some
            && forall|j: int|
            0 <= j < i && (#[trigger] layers[j]).panel_id == panel ==> layers[j].scroll is None {
            assert(at == i) by {
                if at < i {
                    assert(layers[at].panel_id == panel);
                }
            }
        }
    }
}

/// Every event but what the box or a panel takes is put to the layers, from the front-most on,
/// keys in their canonical form; but for clicks and the wheel nothing changes before that.
pub proof fn law_events_are_put_to_the_front_layer<C, A>(
    screen: Compositor<C>,
    event: Event,
    info_area: Option<Rect>,
    entered: Entered<A>,
    after: Compositor<C>,
)
    requires
        screen.enters(event, info_area, entered, after),
        !(event is Mouse),
    ensures
        after == screen,
        entered matches Entered::Layers { event: asked, dispatch } && {
            &&& dispatch.remaining == screen.layers@.len()
            &&& !dispatch.consumed
            &&& dispatch.actions@.len() == 0
            &&& event matches Event::Key(key) ==> asked == Event::Key(canonical_key(key))
            &&& !(event is Key) ==> asked == event
        },
{
}

/// What is shown of an information box takes the mouse within its bounds and nowhere else; events
/// that are no keys stay as they are.
pub proof fn law_boxes_take_the_mouse_within_them(area: Rect, mouse: MouseEvent, event: Event)
    ensures
        info_takes(Some(area), mouse) <==> area.x <= mouse.column && mouse.column - area.x
            < area.width && area.y <= mouse.row && mouse.row - area.y < area.height,
        !info_takes(None, mouse),
        !(event is Key) ==> canonical(event) == event,
        event matches Event::Key(key) ==> canonical(event) == Event::Key(canonical_key(key)),
{
}

} // verus!
