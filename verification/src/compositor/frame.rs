//! What is drawn in a frame, in which order and where.

use vstd::prelude::*;

use crate::compositor::{Compositor, Layer};
use crate::geometry::Rect;
use crate::layout;
use crate::layout::{
    compute_panel_layout, resolve_area, CmdlineStyle, LayoutRole, Panel, PanelLayout,
};

verus! {

/// When the line of open buffers is shown.
#[derive(Debug, Clone, Copy, PartialEq, Eq, Structural)]
pub enum BufferLineRenderMode {
    Never,
    Always,
    Multiple,
}

/// What a frame depends on besides the layers.
#[derive(Debug, Clone, Copy, PartialEq, Eq, Structural)]
pub struct FrameFacts {
    pub cmdline_style: CmdlineStyle,
    pub cmdline_full_height: bool,
    pub bufferline: BufferLineRenderMode,
    pub multiple_documents: bool,
    /// Whether there is an info box to show.
    pub info: bool,
    /// How many floats there are to show.
    pub floats: usize,
}

/// One step of drawing a frame.
#[derive(Debug, Clone, Copy, PartialEq, Eq, Structural)]
pub enum FrameStep {
    /// The editor takes the area.
    ResizeEditor(Rect),
    /// The editor learns whether a prompt is open.
    PromptActive(bool),
    /// A layer is drawn onto the screen.
    Draw { layer: usize, area: Rect },
    /// A layer is drawn by itself and then put onto the screen.
    Compose { layer: usize, area: Rect },
    InfoBox(Rect),
    Floats(Rect),
    StatusRow(Rect),
}

pub open spec fn shows_bufferline(facts: FrameFacts) -> bool {
    match facts.bufferline {
        BufferLineRenderMode::Always => true,
        BufferLineRenderMode::Multiple => facts.multiple_documents,
        BufferLineRenderMode::Never => false,
    }
}

/// The area of the editor's text: without the line of open buffers, where that is shown.
pub open spec fn text_area(editor_area: Rect, facts: FrameFacts) -> Rect {
    if shows_bufferline(facts) {
        editor_area.lowered(1)
    } else {
        editor_area
    }
}

/// The first layer that floats, or the number of layers: from there on layers go on top.
pub open spec fn overlay_start<C>(layers: Seq<Layer<C>>) -> nat
    decreases layers.len(),
{
    if layers.len() == 0 || layers[0].role == LayoutRole::Overlay {
        0
    } else {
        1 + overlay_start(layers.skip(1))
    }
}

proof fn lemma_overlay_start<C>(layers: Seq<Layer<C>>, i: int)
    requires
        0 <= i <= layers.len(),
        forall|j: int| 0 <= j < i ==> (#[trigger] layers[j]).role != LayoutRole::Overlay,
        i < layers.len() ==> layers[i].role == LayoutRole::Overlay,
    ensures
        overlay_start(layers) == i,
    decreases i,
{
    if i > 0 {
        assert forall|j: int| 0 <= j < i - 1 implies (#[trigger] layers.skip(1)[j]).role
            != LayoutRole::Overlay by {
            assert(layers[j + 1].role != LayoutRole::Overlay);
        }
        assert(layers[0].role != LayoutRole::Overlay);
        lemma_overlay_start(layers.skip(1), i - 1);
    }
}

pub open spec fn layer_area<C>(layer: Layer<C>, area: Rect, layout: PanelLayout) -> Rect {
    layout::resolved_area(
        layer.role,
        layer.panel_id,
        area,
        layout.editor_area,
        layout.panel_areas@,
    )
}

/// How a layer below the overlays is drawn: one that fills onto the screen, others by themselves.
pub open spec fn base_step<C>(layers: Seq<Layer<C>>, i: int, area: Rect, layout: PanelLayout) -> FrameStep {
    let at = layer_area(layers[i], area, layout);
    if layers[i].role == LayoutRole::Fill {
        FrameStep::Draw { layer: i as usize, area: at }
    } else {
        FrameStep::Compose { layer: i as usize, area: at }
    }
}

pub open spec fn overlay_step<C>(layers: Seq<Layer<C>>, i: int, area: Rect, layout: PanelLayout) -> FrameStep {
    FrameStep::Draw { layer: i as usize, area: layer_area(layers[i], area, layout) }
}

/// The steps of a frame: the editor is fitted in; layers up to the first overlay are drawn; on
/// top of them come the info box, the floats and the row for messages; overlays come last.
pub open spec fn frame_steps<C>(
    layers: Seq<Layer<C>>,
    area: Rect,
    layout: PanelLayout,
    facts: FrameFacts,
    prompt: bool,
) -> Seq<FrameStep> {
    let start = overlay_start(layers);
    let fit = seq![
        FrameStep::ResizeEditor(text_area(layout.editor_area, facts)),
        FrameStep::PromptActive(prompt),
    ];
    let base = Seq::new(start, |i: int| base_step(layers, i, area, layout));
    let info = if facts.info {
        seq![FrameStep::InfoBox(area)]
    } else {
        seq![]
    };
    let floats = if facts.floats > 0 {
        seq![FrameStep::Floats(area)]
    } else {
        seq![]
    };
    let status = if layout.global_status_row.height > 0 {
        seq![FrameStep::StatusRow(layout.global_status_row)]
    } else {
        seq![]
    };
    let overlays = Seq::new(
        (layers.len() - start) as nat,
        |i: int| overlay_step(layers, start + i, area, layout),
    );
    fit + base + info + floats + status + overlays
}

/// What is done before a frame is split and drawn, while the editor may still change.
#[derive(Debug, Clone, Copy, PartialEq, Eq, Structural)]
pub enum PrepareStep {
    /// The layer brings the model up to date.
    Sync(usize),
    /// Notifications that have had their time go.
    CleanUpNotifications,
}

/// Every layer, from the back to the front, and then the notifications.
pub open spec fn prepare_steps(layers: nat) -> Seq<PrepareStep> {
    Seq::new(layers, |i: int| PrepareStep::Sync(i as usize)).push(PrepareStep::CleanUpNotifications)
}

/// The name under which a prompt is known.
pub open spec fn prompt_name() -> Seq<char> {
    "helix_term::ui::prompt::Prompt"@
}

pub open spec fn has_prompt<C>(layers: Seq<Layer<C>>) -> bool {
    exists|i: int| 0 <= i < layers.len() && (#[trigger] layers[i]).component_name@ == prompt_name()
}

impl<C> Compositor<C> {
    /// Lists what is done before a frame is split and drawn.
    pub fn prepare_frame(&self) -> (steps: Vec<PrepareStep>)
        ensures
            steps@ == prepare_steps(self.layers@.len()),
    {
        let mut steps: Vec<PrepareStep> = Vec::new();
        let mut i: usize = 0;
        while i < self.layers.len()
            invariant
                i <= self.layers@.len(),
                steps@ =~= Seq::new(i as nat, |j: int| PrepareStep::Sync(j as usize)),
            decreases self.layers@.len() - i,
        {
            steps.push(PrepareStep::Sync(i));
            i += 1;
        }
        steps.push(PrepareStep::CleanUpNotifications);
        assert(steps@ =~= prepare_steps(self.layers@.len()));
        steps
    }

    /// Splits the screen for a frame and lists the steps of drawing it. What `prepare_frame` lists
    /// is done before, so that the panels and facts are those after it.
    pub fn render_frame(&mut self, area: Rect, panels: &Vec<Panel>, facts: FrameFacts) -> (steps: Vec<
        FrameStep,
    >)
        requires
            layout::can_split(
                panels@,
                area,
                layout::chrome_area(area, facts.cmdline_style, facts.cmdline_full_height),
            ),
        ensures
            final(self).layers == old(self).layers,
            final(self).last_picker == old(self).last_picker,
            final(self).area == old(self).area,
            final(self).full_redraw == old(self).full_redraw,
            final(self).pending_timers == old(self).pending_timers,
            final(self).last_layout matches Some(layout) && {
                &&& (layout.editor_area, layout.panel_areas@) == layout::split(
                    panels@,
                    area,
                    layout::chrome_area(area, facts.cmdline_style, facts.cmdline_full_height),
                )
                &&& layout.global_status_row == layout::status_row(
                    area,
                    facts.cmdline_style,
                    facts.cmdline_full_height,
                )
                &&& steps@ == frame_steps(
                    old(self).layers@,
                    area,
                    layout,
                    facts,
                    has_prompt(old(self).layers@),
                )
            },
    {
        let prompt = self.has_component("helix_term::ui::prompt::Prompt");
        let split = compute_panel_layout(
            area,
            panels,
            facts.cmdline_style,
            facts.cmdline_full_height,
        );
        let bufferline = match facts.bufferline {
            BufferLineRenderMode::Always => true,
            BufferLineRenderMode::Multiple => facts.multiple_documents,
            BufferLineRenderMode::Never => false,
        };
        let editor_area = if bufferline {
            split.editor_area.clip_top(1)
        } else {
            split.editor_area
        };
        assert(editor_area == text_area(split.editor_area, facts));
        let ghost layers = self.layers@;
        let mut steps: Vec<FrameStep> = Vec::new();
        steps.push(FrameStep::ResizeEditor(editor_area));
        steps.push(FrameStep::PromptActive(prompt));
        let ghost fit = steps@;
        let first: usize = self.push_base_steps(area, &split, &mut steps);
        let ghost base = steps@;
        if facts.info {
            steps.push(FrameStep::InfoBox(area));
        }
        let ghost info = steps@;
        if facts.floats > 0 {
            steps.push(FrameStep::Floats(area));
        }
        let ghost floats = steps@;
        if split.global_status_row.height > 0 {
            steps.push(FrameStep::StatusRow(split.global_status_row));
        }
        let ghost status = steps@;
        self.push_overlay_steps(first, area, &split, &mut steps);
        proof {
            assert(fit =~= seq![
                FrameStep::ResizeEditor(text_area(split.editor_area, facts)),
                FrameStep::PromptActive(prompt),
            ]);
            assert(info =~= base + (if facts.info {
                seq![FrameStep::InfoBox(area)]
            } else {
                seq![]
            }));
            assert(floats =~= info + (if facts.floats > 0 {
                seq![FrameStep::Floats(area)]
            } else {
                seq![]
            }));
            assert(status =~= floats + (if split.global_status_row.height > 0 {
                seq![FrameStep::StatusRow(split.global_status_row)]
            } else {
                seq![]
            }));
            assert(steps@ == frame_steps(layers, area, split, facts, prompt));
        }
        self.last_layout = Some(split);
        steps
    }

    /// Lists the steps for the layers below the overlays; returns where the overlays begin.
    fn push_base_steps(&self, area: Rect, split: &PanelLayout, steps: &mut Vec<FrameStep>) -> (first:
        usize)
        ensures
            first == overlay_start(self.layers@),
            first <= self.layers@.len(),
            final(steps)@ == old(steps)@ + Seq::new(
                first as nat,
                |j: int| base_step(self.layers@, j, area, *split),
            ),
    {
        let ghost layers = self.layers@;
        let ghost before = steps@;
        let mut i: usize = 0;
        while i < self.layers.len()
            invariant
                i <= self.layers@.len(),
                layers == self.layers@,
                before == old(steps)@,
                forall|j: int| 0 <= j < i ==> (#[trigger] layers[j]).role != LayoutRole::Overlay,
                steps@ =~= before + Seq::new(i as nat, |j: int| base_step(layers, j, area, *split)),
            decreases self.layers@.len() - i,
        {
            let role = self.layers[i].role;
            if role == LayoutRole::Overlay {
                proof {
                    lemma_overlay_start(layers, i as int);
                }
                return i;
            }
            let at = resolve_area(role, self.layers[i].panel_id, area, split);
            if role == LayoutRole::Fill {
                steps.push(FrameStep::Draw { layer: i, area: at });
            } else {
                steps.push(FrameStep::Compose { layer: i, area: at });
            }
            i += 1;
        }
        proof {
            lemma_overlay_start(layers, i as int);
        }
        i
    }

    /// Lists the steps for the layers from `first` on.
    fn push_overlay_steps(
        &self,
        first: usize,
        area: Rect,
        split: &PanelLayout,
        steps: &mut Vec<FrameStep>,
    )
        requires
            first <= self.layers@.len(),
        ensures
            final(steps)@ == old(steps)@ + Seq::new(
                (self.layers@.len() - first) as nat,
                |j: int| overlay_step(self.layers@, first + j, area, *split),
            ),
    {
        let ghost layers = self.layers@;
        let ghost before = steps@;
        let mut k: usize = first;
        while k < self.layers.len()
            invariant
                first <= k <= self.layers@.len(),
                layers == self.layers@,
                steps@ =~= before + Seq::new(
                    (k - first) as nat,
                    |j: int| overlay_step(layers, first + j, area, *split),
                ),
            decreases self.layers@.len() - k,
        {
            let at = resolve_area(self.layers[k].role, self.layers[k].panel_id, area, split);
            steps.push(FrameStep::Draw { layer: k, area: at });
            k += 1;
        }
    }
}

/// Every layer is drawn, once, in its area, and one that floats after everything below it: a
/// step for layer `i` is where the split of the layers at the first overlay puts it.
pub proof fn law_every_layer_is_drawn<C>(
    layers: Seq<Layer<C>>,
    area: Rect,
    layout: PanelLayout,
    facts: FrameFacts,
    prompt: bool,
    i: int,
)
    requires
        0 <= i < layers.len() <= usize::MAX,
    ensures
        exists|s: int|
            0 <= s < frame_steps(layers, area, layout, facts, prompt).len() && draws(
                #[trigger] frame_steps(layers, area, layout, facts, prompt)[s],
                i as usize,
                layer_area(layers[i], area, layout),
            ),
{
    let steps = frame_steps(layers, area, layout, facts, prompt);
    let start = overlay_start(layers);
    lemma_overlay_start_bound(layers);
    let extra = (if facts.info { 1int } else { 0 }) + (if facts.floats > 0 { 1int } else { 0 })
        + (if layout.global_status_row.height > 0 { 1int } else { 0 });
    if i < start {
        assert(steps[2 + i] == base_step(layers, i, area, layout));
        assert(draws(steps[2 + i], i as usize, layer_area(layers[i], area, layout)));
    } else {
        assert(steps[2 + i + extra] == overlay_step(layers, i, area, layout));
        assert(draws(steps[2 + i + extra], i as usize, layer_area(layers[i], area, layout)));
    }
}

proof fn lemma_overlay_start_bound<C>(layers: Seq<Layer<C>>)
    ensures
        overlay_start(layers) <= layers.len(),
    decreases layers.len(),
{
    if layers.len() > 0 {
        lemma_overlay_start_bound(layers.skip(1));
    }
}

pub open spec fn draws(step: FrameStep, layer: usize, area: Rect) -> bool {
    step == FrameStep::Draw { layer, area } || step == FrameStep::Compose { layer, area }
}

/// A place on the screen.
#[derive(Debug, Clone, Copy, PartialEq, Eq, Structural)]
pub struct Position {
    pub row: usize,
    pub col: usize,
}

#[derive(Debug, Clone, Copy, PartialEq, Eq, Structural)]
pub enum CursorKind {
    Block,
    Bar,
    Underline,
    Hidden,
}

/// The cursor of the front layer that has one, of layers listed from the back to the front.
pub open spec fn front_cursor(cursors: Seq<(Option<Position>, CursorKind)>) -> (
    Option<Position>,
    CursorKind,
)
    decreases cursors.len(),
{
    if cursors.len() == 0 {
        (None, CursorKind::Hidden)
    } else if cursors.last().0 is Some {
        cursors.last()
    } else {
        front_cursor(cursors.drop_last())
    }
}

/// The cursor that is shown: that of the front layer that has one, unless the info box covers it.
pub open spec fn shown_cursor(
    cursors: Seq<(Option<Position>, CursorKind)>,
    info_area: Option<Rect>,
) -> (Option<Position>, CursorKind) {
    let front = front_cursor(cursors);
    match (front.0, info_area) {
        (Some(position), Some(area)) => if area.has(
            (position.col as u16) as int,
            (position.row as u16) as int,
        ) {
            (None, CursorKind::Hidden)
        } else {
            front
        },
        _ => front,
    }
}

impl<C> Compositor<C> {
    /// The area in which each layer says where its cursor is.
    pub fn cursor_areas(
        &self,
        area: Rect,
        panels: &Vec<Panel>,
        cmdline_style: CmdlineStyle,
        cmdline_full_height: bool,
    ) -> (r: Vec<Rect>)
        requires
            layout::can_split(
                panels@,
                area,
                layout::chrome_area(area, cmdline_style, cmdline_full_height),
            ),
        ensures
            r@.len() == self.layers@.len(),
            forall|i: int|
                0 <= i < r@.len() ==> {
                    let (editor_area, panel_areas) = layout::split(
                        panels@,
                        area,
                        layout::chrome_area(area, cmdline_style, cmdline_full_height),
                    );
                    #[trigger] r@[i] == layout::resolved_area(
                        self.layers@[i].role,
                        self.layers@[i].panel_id,
                        area,
                        editor_area,
                        panel_areas,
                    )
                },
    {
        let split = compute_panel_layout(area, panels, cmdline_style, cmdline_full_height);
        let mut areas: Vec<Rect> = Vec::new();
        let mut i: usize = 0;
        while i < self.layers.len()
            invariant
                i <= self.layers@.len(),
                areas@.len() == i,
                forall|j: int|
                    0 <= j < i ==> #[trigger] areas@[j] == layout::resolved_area(
                        self.layers@[j].role,
                        self.layers@[j].panel_id,
                        area,
                        split.editor_area,
                        split.panel_areas@,
                    ),
            decreases self.layers@.len() - i,
        {
            areas.push(
                resolve_area(self.layers[i].role, self.layers[i].panel_id, area, &split),
            );
            i += 1;
        }
        areas
    }

    /// Which cursor is shown, given that of each layer and the area of the info box, where one is
    /// shown.
    pub fn cursor(&self, cursors: &Vec<(Option<Position>, CursorKind)>, info_area: Option<Rect>) -> (r:
        (Option<Position>, CursorKind))
        requires
            cursors@.len() == self.layers@.len(),
        ensures
            r == shown_cursor(cursors@, info_area),
    {
        let mut i: usize = cursors.len();
        let mut front: (Option<Position>, CursorKind) = (None, CursorKind::Hidden);
        let mut looking = true;
        assert(cursors@.take(i as int) =~= cursors@);
        while i > 0 && looking
            invariant
                i <= cursors@.len(),
                looking ==> front == (None::<Position>, CursorKind::Hidden) && front_cursor(cursors@)
                    == front_cursor(cursors@.take(i as int)),
                !looking ==> front == front_cursor(cursors@),
            decreases i,
        {
            let candidate = cursors[i - 1];
            assert(cursors@.take(i as int).last() == candidate);
            assert(cursors@.take(i as int).drop_last() =~= cursors@.take(i - 1));
            if candidate.0.is_some() {
                front = candidate;
                looking = false;
            }
            i = i - 1;
        }
        if let (Some(position), Some(area)) = (front.0, info_area) {
            if area.contains(#[verifier::truncate] (position.col as u16), #[verifier::truncate] (position.row as u16)) {
                return (None, CursorKind::Hidden);
            }
        }
        front
    }
}

/// How a message is shown in the row for messages.
#[derive(Debug, Clone, Copy, PartialEq, Eq, Structural)]
pub enum Severity {
    Hint,
    Info,
    Warning,
    Error,
}

/// The style of a message, by the theme's names for it; of several the first that the theme has.
#[derive(Debug, Clone, Copy, PartialEq, Eq, Structural)]
pub enum MessageStyle {
    Error,
    Warning,
    /// Inactive text, else comments, else text.
    Quiet,
}

/// Where a message goes: one cell in from the left, cut off at the right edge.
#[derive(Debug, Clone, Copy, PartialEq, Eq, Structural)]
pub struct MessagePlace {
    pub x: u16,
    pub y: u16,
    pub max_width: usize,
    pub style: MessageStyle,
}

/// Where and how a message is shown in the row; nowhere, where the row has no cells.
pub fn place_message(row: Rect, severity: Severity) -> (r: Option<MessagePlace>)
    ensures
        r == if row.width == 0 || row.height == 0 {
            None
        } else {
            Some(
                MessagePlace {
                    x: if row.x < u16::MAX {
                        (row.x + 1) as u16
                    } else {
                        u16::MAX
                    },
                    y: row.y,
                    max_width: (row.width - 1) as usize,
                    style: match severity {
                        Severity::Error => MessageStyle::Error,
                        Severity::Warning => MessageStyle::Warning,
                        Severity::Info | Severity::Hint => MessageStyle::Quiet,
                    },
                },
            )
        },
{
    if row.width == 0 || row.height == 0 {
        return None;
    }
    let style = match severity {
        Severity::Error => MessageStyle::Error,
        Severity::Warning => MessageStyle::Warning,
        Severity::Info | Severity::Hint => MessageStyle::Quiet,
    };
    Some(
        MessagePlace {
            x: row.x.saturating_add(1),
            y: row.y,
            max_width: (row.width - 1) as usize,
            style,
        },
    )
}

/// Layers in front of the first overlay are drawn first, in order, then the box with information,
/// what floats and the row for messages, as far as there are any, and the overlays on top of all.
pub proof fn law_overlays_are_drawn_last<C>(
    layers: Seq<Layer<C>>,
    area: Rect,
    layout: PanelLayout,
    facts: FrameFacts,
    prompt: bool,
)
    requires
        layers.len() <= usize::MAX,
    ensures
        ({
            let steps = frame_steps(layers, area, layout, facts, prompt);
            let start = overlay_start(layers) as int;
            let tail = steps.len() - (layers.len() - start);
            &&& 0 <= start <= layers.len()
            &&& start < layers.len() ==> layers[start].role == LayoutRole::Overlay
            &&& forall|i: int| 0 <= i < start ==> (#[trigger] layers[i]).role != LayoutRole::Overlay
            &&& steps[0] is ResizeEditor
            &&& steps[1] == FrameStep::PromptActive(prompt)
            &&& forall|i: int| 0 <= i < start ==> (#[trigger] steps[2 + i] matches FrameStep::Draw {
                layer,
                ..
            } && layer == i && layers[i].role == LayoutRole::Fill) || (
            steps[2 + i] matches FrameStep::Compose { layer, .. } && layer == i && layers[i].role
                != LayoutRole::Fill)
            &&& forall|i: int|
                start <= i < layers.len() ==> (#[trigger] steps[tail + (i - start)] matches FrameStep::Draw {
                    layer,
                    ..
                } && layer == i)
            &&& tail == 2 + start + (if facts.info {
                1int
            } else {
                0
            }) + (if facts.floats > 0 {
                1int
            } else {
                0
            }) + (if layout.global_status_row.height > 0 {
                1int
            } else {
                0
            })
            &&& facts.info ==> steps[2 + start] == FrameStep::InfoBox(area)
            &&& facts.floats > 0 ==> steps[2 + start + (if facts.info {
                1int
            } else {
                0
            })] == FrameStep::Floats(area)
            &&& layout.global_status_row.height > 0 ==> steps[tail - 1] == FrameStep::StatusRow(
                layout.global_status_row,
            )
        }),
{
    lemma_first_overlay(layers);
}

proof fn lemma_first_overlay<C>(layers: Seq<Layer<C>>)
    ensures
        overlay_start(layers) <= layers.len(),
        overlay_start(layers) < layers.len() ==> layers[overlay_start(layers) as int].role
            == LayoutRole::Overlay,
        forall|i: int|
            0 <= i < overlay_start(layers) ==> (#[trigger] layers[i]).role != LayoutRole::Overlay,
    decreases layers.len(),
{
    if layers.len() > 0 && layers[0].role != LayoutRole::Overlay {
        let rest = layers.skip(1);
        lemma_first_overlay(rest);
        assert forall|i: int| 0 < i < layers.len() implies #[trigger] layers[i] == rest[i - 1] by {}
    }
}

/// The text begins below the line of buffers, which is shown always, never, or when there are
/// several documents.
pub proof fn law_the_line_of_buffers_takes_a_row(editor_area: Rect, facts: FrameFacts)
    requires
        editor_area.height > 0,
        editor_area.y < u16::MAX,
    ensures
        ({
            let shown = facts.bufferline == BufferLineRenderMode::Always || (facts.bufferline
                == BufferLineRenderMode::Multiple && facts.multiple_documents);
            let text = text_area(editor_area, facts);
            &&& text.x == editor_area.x && text.width == editor_area.width
            &&& shown ==> text.y == editor_area.y + 1 && text.height == editor_area.height - 1
            &&& !shown ==> text == editor_area
        }),
{
}

/// The cursor is that of the front-most layer that has one.
pub proof fn law_the_front_layer_has_the_cursor(
    cursors: Seq<(Option<Position>, CursorKind)>,
)
    ensures
        ({
            let front = front_cursor(cursors);
            match front.0 {
                Some(_) => exists|i: int|
                    {
                        &&& 0 <= i < cursors.len()
                        &&& #[trigger] cursors[i] == front
                        &&& forall|j: int| i < j < cursors.len() ==> (#[trigger] cursors[j]).0 is None
                    },
                None => front.1 == CursorKind::Hidden && forall|i: int|
                    0 <= i < cursors.len() ==> (#[trigger] cursors[i]).0 is None,
            }
        }),
    decreases cursors.len(),
{
    if cursors.len() > 0 {
        let rest = cursors.drop_last();
        assert(cursors[cursors.len() - 1] == cursors.last());
        if cursors.last().0 is None {
            law_the_front_layer_has_the_cursor(rest);
            let front = front_cursor(rest);
            assert forall|i: int| 0 <= i < rest.len() implies #[trigger] cursors[i]
                == rest[i] by {}
            if front.0 is Some {
                let i = choose|i: int|
                    {
                        &&& 0 <= i < rest.len()
                        &&& #[trigger] rest[i] == front
                        &&& forall|j: int| i < j < rest.len() ==> (#[trigger] rest[j]).0 is None
                    };
                assert(cursors[i] == front);
                assert forall|j: int| i < j < cursors.len() implies (#[trigger] cursors[j]).0
                    is None by {
                    if j < rest.len() {
                        assert(rest[j] == cursors[j]);
                    }
                }
            }
        }
    }
}

/// The cursor is hidden exactly if no layer has one, or the box with information lies over it.
pub proof fn law_the_cursor_does_not_show_through(
    cursors: Seq<(Option<Position>, CursorKind)>,
    info: Rect,
)
    ensures
        shown_cursor(cursors, None) == front_cursor(cursors),
        front_cursor(cursors).0 matches Some(at) ==> at.col <= u16::MAX && at.row <= u16::MAX ==> (
        if info.has(at.col as int, at.row as int) {
            shown_cursor(cursors, Some(info)) == (None::<Position>, CursorKind::Hidden)
        } else {
            shown_cursor(cursors, Some(info)) == front_cursor(cursors)
        }),
{
}

/// Before a frame every layer is brought up to date, in order, and then old notifications go.
pub proof fn law_layers_are_brought_up_to_date(layers: nat, i: int)
    requires
        0 <= i < layers <= usize::MAX,
    ensures
        prepare_steps(layers).len() == layers + 1,
        prepare_steps(layers)[i] == PrepareStep::Sync(i as usize),
        prepare_steps(layers).last() == PrepareStep::CleanUpNotifications,
{
}

} // verus!
