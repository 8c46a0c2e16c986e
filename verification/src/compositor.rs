//! The stack of layers that make up the screen: how events travel through it, what is drawn
//! where, and which layer shows the cursor.

use vstd::prelude::*;

use crate::geometry::Rect;
use crate::host::Invalidation;
use crate::layout::{LayoutRole, PanelLayout};
use crate::text::same_text;

pub mod event;
pub mod frame;
pub mod post_action;
pub mod render_frame;
pub mod run;

verus! {

/// How far a component is scrolled, and how far it can be.
#[derive(Debug, Clone, Copy, PartialEq, Eq, Structural)]
pub struct ScrollState {
    pub current: usize,
    pub max: usize,
}

/// A layer of the screen: what the compositor knows of a component, and the component.
pub struct Layer<C> {
    pub id: Option<String>,
    pub component_name: String,
    pub role: LayoutRole,
    /// The panel of a docked component.
    pub panel_id: Option<u64>,
    pub focusable: bool,
    pub focused: bool,
    pub scroll: Option<ScrollState>,
    /// Whether the component can be used as a picker.
    pub picks: bool,
    pub component: C,
}

/// The id of the picker.
pub open spec fn picker_id() -> Seq<char> {
    "picker"@
}

impl<C> Layer<C> {
    pub open spec fn has_id(&self, id: Seq<char>) -> bool {
        match self.id {
            Some(own) => own@ == id,
            None => false,
        }
    }

    fn is_called(&self, id: &str) -> (r: bool)
        ensures
            r == self.has_id(id@),
    {
        match &self.id {
            Some(own) => same_text(own.as_str(), id),
            None => false,
        }
    }
}

/// The screen.
pub struct Compositor<C> {
    /// The layers, from the back to the front.
    pub layers: Vec<Layer<C>>,
    pub area: Rect,
    pub last_picker: Option<Layer<C>>,
    pub full_redraw: bool,
    /// Timers that are to be set: an id and a delay in milliseconds.
    pub pending_timers: Vec<(u64, u64)>,
    /// The split of the last frame, by which clicks are told apart.
    pub last_layout: Option<PanelLayout>,
}

/// The first layer with the id, or the number of layers.
pub open spec fn first_with_id<C>(layers: Seq<Layer<C>>, id: Seq<char>) -> int
    decreases layers.len(),
{
    if layers.len() == 0 || layers[0].has_id(id) {
        0
    } else {
        1 + first_with_id(layers.skip(1), id)
    }
}

/// The first layer of the type, or the number of layers.
pub open spec fn first_of_type<C>(layers: Seq<Layer<C>>, component_name: Seq<char>) -> int
    decreases layers.len(),
{
    if layers.len() == 0 || layers[0].component_name@ == component_name {
        0
    } else {
        1 + first_of_type(layers.skip(1), component_name)
    }
}

proof fn lemma_first_with_id<C>(layers: Seq<Layer<C>>, id: Seq<char>, i: int)
    requires
        0 <= i <= layers.len(),
        forall|j: int| 0 <= j < i ==> !(#[trigger] layers[j]).has_id(id),
        i < layers.len() ==> layers[i].has_id(id),
    ensures
        first_with_id(layers, id) == i,
    decreases i,
{
    if i > 0 {
        assert forall|j: int| 0 <= j < i - 1 implies !(#[trigger] layers.skip(1)[j]).has_id(id) by {
            assert(!layers[j + 1].has_id(id));
        }
        assert(!layers[0].has_id(id));
        lemma_first_with_id(layers.skip(1), id, i - 1);
    }
}

proof fn lemma_first_of_type<C>(layers: Seq<Layer<C>>, component_name: Seq<char>, i: int)
    requires
        0 <= i <= layers.len(),
        forall|j: int| 0 <= j < i ==> (#[trigger] layers[j]).component_name@ != component_name,
        i < layers.len() ==> layers[i].component_name@ == component_name,
    ensures
        first_of_type(layers, component_name) == i,
    decreases i,
{
    if i > 0 {
        assert forall|j: int| 0 <= j < i - 1 implies (#[trigger] layers.skip(1)[j]).component_name@
            != component_name by {
            assert(layers[j + 1].component_name@ != component_name);
        }
        assert(layers[0].component_name@ != component_name);
        lemma_first_of_type(layers.skip(1), component_name, i - 1);
    }
}

/// The layers that are not of the type, in order.
pub open spec fn not_of_type<C>(layers: Seq<Layer<C>>, component_name: Seq<char>) -> Seq<Layer<C>>
    decreases layers.len(),
{
    if layers.len() == 0 {
        layers
    } else {
        let rest = not_of_type(layers.drop_last(), component_name);
        if layers.last().component_name@ == component_name {
            rest
        } else {
            rest.push(layers.last())
        }
    }
}

impl<C> Compositor<C> {
    /// Everything but the layers and the remembered picker stays as it was.
    pub open spec fn same_frame(self, other: Self) -> bool {
        &&& self.area == other.area
        &&& self.full_redraw == other.full_redraw
        &&& self.pending_timers == other.pending_timers
        &&& self.last_layout == other.last_layout
    }

    pub fn new(area: Rect) -> (r: Self)
        ensures
            r.layers@.len() == 0,
            r.area == area,
            r.last_picker is None,
            !r.full_redraw,
            r.pending_timers@.len() == 0,
            r.last_layout is None,
    {
        Compositor {
            layers: Vec::new(),
            area,
            last_picker: None,
            full_redraw: false,
            pending_timers: Vec::new(),
            last_layout: None,
        }
    }

    pub fn size(&self) -> (r: Rect)
        ensures
            r == self.area,
    {
        self.area
    }

    pub fn resize(&mut self, area: Rect)
        ensures
            final(self).area == area,
            final(self).layers == old(self).layers,
            final(self).last_picker == old(self).last_picker,
            final(self).full_redraw == old(self).full_redraw,
            final(self).pending_timers == old(self).pending_timers,
            final(self).last_layout == old(self).last_layout,
    {
        self.area = area;
    }

    /// Puts a layer in front of all others. A new picker replaces the memory of the last one.
    /// Returned are the width and the height for which the component is asked its size.
    pub fn push(&mut self, layer: Layer<C>) -> (viewport: (u16, u16))
        ensures
            viewport == (old(self).area.width, old(self).area.height),
            final(self).layers@ == old(self).layers@.push(layer),
            final(self).last_picker == if layer.has_id(picker_id()) {
                None
            } else {
                old(self).last_picker
            },
            final(self).same_frame(*old(self)),
    {
        if layer.is_called("picker") {
            self.last_picker = None;
        }
        self.layers.push(layer);
        (self.area.width, self.area.height)
    }

    /// Where the first layer with the id stands.
    pub fn find_id(&self, id: &str) -> (r: Option<usize>)
        ensures
            match r {
                Some(i) => i == first_with_id(self.layers@, id@) && i < self.layers@.len()
                    && self.layers@[i as int].has_id(id@),
                None => first_with_id(self.layers@, id@) == self.layers@.len() && forall|j: int|
                    0 <= j < self.layers@.len() ==> !(#[trigger] self.layers@[j]).has_id(id@),
            },
    {
        let mut i: usize = 0;
        while i < self.layers.len()
            invariant
                i <= self.layers@.len(),
                forall|j: int| 0 <= j < i ==> !(#[trigger] self.layers@[j]).has_id(id@),
            decreases self.layers@.len() - i,
        {
            if self.layers[i].is_called(id) {
                proof {
                    lemma_first_with_id(self.layers@, id@, i as int);
                }
                return Some(i);
            }
            i += 1;
        }
        proof {
            lemma_first_with_id(self.layers@, id@, i as int);
        }
        None
    }

    /// Where the first layer with the id stands, if it is of the type.
    pub fn find_id_of_type(&self, id: &str, component_name: &str) -> (r: Option<usize>)
        ensures
            ({
                let at = first_with_id(self.layers@, id@);
                match r {
                    Some(i) => i == at && at < self.layers@.len()
                        && self.layers@[at].component_name@ == component_name@,
                    None => at < self.layers@.len() ==> self.layers@[at].component_name@
                        != component_name@,
                }
            }),
    {
        match self.find_id(id) {
            Some(i) => if same_text(self.layers[i].component_name.as_str(), component_name) {
                Some(i)
            } else {
                None
            },
            None => None,
        }
    }

    /// Where the picker stands: the first layer with its id, if it can be used as one.
    pub fn find_picker(&self) -> (r: Option<usize>)
        ensures
            ({
                let at = first_with_id(self.layers@, picker_id());
                match r {
                    Some(i) => i == at && at < self.layers@.len() && self.layers@[at].picks,
                    None => at < self.layers@.len() ==> !self.layers@[at].picks,
                }
            }),
    {
        match self.find_id("picker") {
            Some(i) => if self.layers[i].picks {
                Some(i)
            } else {
                None
            },
            None => None,
        }
    }

    /// Where the first layer of the type stands.
    pub fn find(&self, component_name: &str) -> (r: Option<usize>)
        ensures
            match r {
                Some(i) => i == first_of_type(self.layers@, component_name@) && i < self.layers@.len()
                    && self.layers@[i as int].component_name@ == component_name@,
                None => first_of_type(self.layers@, component_name@) == self.layers@.len() && forall|
                    j: int,
                |
                    0 <= j < self.layers@.len() ==> (#[trigger] self.layers@[j]).component_name@
                        != component_name@,
            },
    {
        let mut i: usize = 0;
        while i < self.layers.len()
            invariant
                i <= self.layers@.len(),
                forall|j: int|
                    0 <= j < i ==> (#[trigger] self.layers@[j]).component_name@ != component_name@,
            decreases self.layers@.len() - i,
        {
            if same_text(self.layers[i].component_name.as_str(), component_name) {
                proof {
                    lemma_first_of_type(self.layers@, component_name@, i as int);
                }
                return Some(i);
            }
            i += 1;
        }
        proof {
            lemma_first_of_type(self.layers@, component_name@, i as int);
        }
        None
    }

    pub fn has_component(&self, component_name: &str) -> (r: bool)
        ensures
            r == exists|i: int|
                0 <= i < self.layers@.len() && (#[trigger] self.layers@[i]).component_name@
                    == component_name@,
    {
        match self.find(component_name) {
            Some(i) => {
                assert(self.layers@[i as int].component_name@ == component_name@);
                true
            },
            None => false,
        }
    }

    /// Puts the layer in the place of the first one with the id. With none, it is put in front of
    /// all others, and its component is asked its size as for `push`.
    pub fn replace_or_push(&mut self, id: &str, layer: Layer<C>) -> (viewport: Option<(u16, u16)>)
        ensures
            ({
                let at = first_with_id(old(self).layers@, id@);
                let layers = old(self).layers@;
                if at < layers.len() {
                    &&& final(self).layers@ == layers.update(at, layer)
                    &&& final(self).last_picker == old(self).last_picker
                    &&& viewport is None
                } else {
                    &&& final(self).layers@ == layers.push(layer)
                    &&& final(self).last_picker == if layer.has_id(picker_id()) {
                        None
                    } else {
                        old(self).last_picker
                    }
                    &&& viewport == Some((old(self).area.width, old(self).area.height))
                }
            }),
            final(self).same_frame(*old(self)),
    {
        match self.find_id(id) {
            Some(i) => {
                self.layers[i] = layer;
                None
            },
            None => Some(self.push(layer)),
        }
    }

    /// Takes the front layer off.
    pub fn pop(&mut self) -> (r: Option<Layer<C>>)
        ensures
            match r {
                Some(layer) => old(self).layers@.len() > 0 && layer == old(self).layers@.last()
                    && final(self).layers@ == old(self).layers@.drop_last(),
                None => old(self).layers@.len() == 0 && final(self).layers@ == old(self).layers@,
            },
            final(self).last_picker == old(self).last_picker,
            final(self).same_frame(*old(self)),
    {
        self.layers.pop()
    }

    pub fn layer_count(&self) -> (r: usize)
        ensures
            r == self.layers@.len(),
    {
        self.layers.len()
    }

    /// Takes the first layer with the id out.
    pub fn remove_by_id(&mut self, id: &str) -> (r: Option<Layer<C>>)
        ensures
            ({
                let at = first_with_id(old(self).layers@, id@);
                match r {
                    Some(layer) => at < old(self).layers@.len() && layer == old(self).layers@[at]
                        && final(self).layers@ == old(self).layers@.remove(at),
                    None => at == old(self).layers@.len() && final(self).layers@
                        == old(self).layers@,
                }
            }),
            final(self).last_picker == old(self).last_picker,
            final(self).same_frame(*old(self)),
    {
        match self.find_id(id) {
            Some(i) => Some(self.layers.remove(i)),
            None => None,
        }
    }

    /// Takes the first layer with the id out.
    pub fn remove(&mut self, id: &str) -> (r: Option<Layer<C>>)
        ensures
            ({
                let at = first_with_id(old(self).layers@, id@);
                match r {
                    Some(layer) => at < old(self).layers@.len() && layer == old(self).layers@[at]
                        && final(self).layers@ == old(self).layers@.remove(at),
                    None => at == old(self).layers@.len() && final(self).layers@
                        == old(self).layers@,
                }
            }),
            final(self).last_picker == old(self).last_picker,
            final(self).same_frame(*old(self)),
    {
        self.remove_by_id(id)
    }

    /// Takes every layer of the type out.
    pub fn remove_type(&mut self, component_name: &str)
        ensures
            final(self).layers@ == not_of_type(old(self).layers@, component_name@),
            final(self).last_picker == old(self).last_picker,
            final(self).same_frame(*old(self)),
    {
        let ghost all = self.layers@;
        let ghost mut n: int = 0;
        let mut i: usize = 0;
        assert(all.take(0) =~= seq![]);
        assert(all =~= not_of_type(all.take(0), component_name@) + all.skip(0));
        while i < self.layers.len()
            invariant
                0 <= n <= all.len(),
                i == not_of_type(all.take(n), component_name@).len(),
                self.layers@ == not_of_type(all.take(n), component_name@) + all.skip(n),
                self.last_picker == old(self).last_picker,
                self.same_frame(*old(self)),
            decreases self.layers@.len() - i,
        {
            let ghost kept = not_of_type(all.take(n), component_name@);
            proof {
                assert(all.skip(n)[0] == all[n]);
                assert(self.layers@[i as int] == all[n]);
                assert(all.take(n + 1).drop_last() =~= all.take(n));
            }
            if same_text(self.layers[i].component_name.as_str(), component_name) {
                self.layers.remove(i);
                assert(self.layers@ =~= kept + all.skip(n + 1));
            } else {
                i += 1;
                assert(self.layers@ =~= kept.push(all[n]) + all.skip(n + 1));
            }
            proof {
                n = n + 1;
            }
        }
        proof {
            assert(all.skip(n).len() == 0);
            assert(all.take(n) =~= all);
            assert(self.layers@ =~= not_of_type(all, component_name@));
        }
    }

    pub fn need_full_redraw(&mut self)
        ensures
            final(self).full_redraw,
            final(self).layers == old(self).layers,
            final(self).last_picker == old(self).last_picker,
            final(self).area == old(self).area,
            final(self).pending_timers == old(self).pending_timers,
            final(self).last_layout == old(self).last_layout,
    {
        self.full_redraw = true;
    }

    /// A terminal redraws as a whole, whatever region was asked for.
    pub fn invalidate(&mut self, area: Invalidation)
        ensures
            final(self).full_redraw,
            final(self).layers == old(self).layers,
            final(self).last_picker == old(self).last_picker,
            final(self).area == old(self).area,
            final(self).pending_timers == old(self).pending_timers,
            final(self).last_layout == old(self).last_layout,
    {
        match area {
            Invalidation::Full => {
                self.full_redraw = true;
            },
            Invalidation::Rect(_) => {
                self.full_redraw = true;
            },
        }
    }

    pub fn request_timer(&mut self, id: u64, after: u64)
        ensures
            final(self).pending_timers@ == old(self).pending_timers@.push((id, after)),
            final(self).layers == old(self).layers,
            final(self).last_picker == old(self).last_picker,
            final(self).area == old(self).area,
            final(self).full_redraw == old(self).full_redraw,
            final(self).last_layout == old(self).last_layout,
    {
        self.pending_timers.push((id, after));
    }

    /// Hands over the timers that are to be set.
    pub fn take_pending_timers(&mut self) -> (r: Vec<(u64, u64)>)
        ensures
            r@ == old(self).pending_timers@,
            final(self).pending_timers@.len() == 0,
            final(self).layers == old(self).layers,
            final(self).last_picker == old(self).last_picker,
            final(self).area == old(self).area,
            final(self).full_redraw == old(self).full_redraw,
            final(self).last_layout == old(self).last_layout,
    {
        let mut taken: Vec<(u64, u64)> = Vec::new();
        std::mem::swap(&mut taken, &mut self.pending_timers);
        taken
    }
}

/// What is found by an id is the first layer with it.
pub proof fn law_the_first_layer_with_an_id_is_found<C>(layers: Seq<Layer<C>>, id: Seq<char>)
    ensures
        0 <= first_with_id(layers, id) <= layers.len(),
        first_with_id(layers, id) < layers.len() ==> (layers[first_with_id(layers, id)].id matches Some(
            own,
        ) && own@ == id),
        forall|i: int|
            0 <= i < first_with_id(layers, id) ==> !((#[trigger] layers[i]).id matches Some(own)
                && own@ == id),
    decreases layers.len(),
{
    if layers.len() > 0 && !layers[0].has_id(id) {
        let rest = layers.skip(1);
        law_the_first_layer_with_an_id_is_found(rest, id);
        assert forall|i: int| 0 < i < layers.len() implies #[trigger] layers[i] == rest[i - 1] by {}
    }
}

/// What is found by a type is the first layer of it.
pub proof fn law_the_first_layer_of_a_type_is_found<C>(layers: Seq<Layer<C>>, name: Seq<char>)
    ensures
        0 <= first_of_type(layers, name) <= layers.len(),
        first_of_type(layers, name) < layers.len() ==> layers[first_of_type(
            layers,
            name,
        )].component_name@ == name,
        forall|i: int|
            0 <= i < first_of_type(layers, name) ==> (#[trigger] layers[i]).component_name@ != name,
    decreases layers.len(),
{
    if layers.len() > 0 && layers[0].component_name@ != name {
        let rest = layers.skip(1);
        law_the_first_layer_of_a_type_is_found(rest, name);
        assert forall|i: int| 0 < i < layers.len() implies #[trigger] layers[i] == rest[i - 1] by {}
    }
}

/// All layers of a type go and all others stay, in order.
pub proof fn law_all_layers_of_a_type_go<C>(layers: Seq<Layer<C>>, layer: Layer<C>, name: Seq<char>)
    ensures
        not_of_type(Seq::<Layer<C>>::empty(), name).len() == 0,
        layer.component_name@ == name ==> not_of_type(layers.push(layer), name) == not_of_type(
            layers,
            name,
        ),
        layer.component_name@ != name ==> not_of_type(layers.push(layer), name) == not_of_type(
            layers,
            name,
        ).push(layer),
{
    assert(layers.push(layer).drop_last() =~= layers);
}

} // verus!
