//! How the terminal is split between the editor and docked panels.

use vstd::prelude::*;

use crate::geometry::Rect;

verus! {

/// The side that a panel is docked to.
#[derive(Debug, Clone, Copy, PartialEq, Eq, Structural)]
pub enum PanelSide {
    Left,
    Right,
    Bottom,
}

/// How much room a panel asks for, along the axis that it is docked on.
#[derive(Debug, Clone, Copy, PartialEq, Eq, Structural)]
pub enum PanelSize {
    /// A number of cells; nothing asks for none.
    Fixed(Option<u16>),
    Percent(u8),
    Fill,
    Constrained { min: u16, max: u16 },
}

/// A panel.
#[derive(Debug, Clone, Copy, PartialEq, Eq, Structural)]
pub struct Panel {
    pub id: u64,
    pub side: PanelSide,
    pub size: PanelSize,
    pub visible: bool,
}

/// Where the command line is shown.
#[derive(Debug, Clone, Copy, PartialEq, Eq, Structural)]
pub enum CmdlineStyle {
    Bottom,
    Popup,
}

/// How a component takes part in the layout.
#[derive(Debug, Clone, Copy, PartialEq, Eq, Structural)]
pub enum LayoutRole {
    /// Takes the space that docked components leave.
    Fill,
    /// Docked to a side; its area is that of its panel.
    Docked,
    /// Floats over everything, with the whole terminal for its area.
    Overlay,
}

impl LayoutRole {
    /// What a component is that says nothing else.
    pub fn default_role() -> (r: LayoutRole)
        ensures
            r == LayoutRole::Overlay,
    {
        LayoutRole::Overlay
    }
}

/// The split of the terminal.
#[derive(Debug)]
pub struct PanelLayout {
    /// Area for the main editor content.
    pub editor_area: Rect,
    /// The areas of the panels that are shown, by their id.
    pub panel_areas: Vec<(u64, Rect)>,
    /// The bottom row, for messages and the command line; of no height where the command line
    /// takes the full height.
    pub global_status_row: Rect,
}

pub const RIGHT_PANEL_MIN: u16 = 30;

pub const LEFT_PANEL_MIN: u16 = 20;

pub const BOTTOM_PANEL_MIN: u16 = 5;

/// What side panels leave to the editor.
pub const EDITOR_MIN_WIDTH: u16 = 40;

/// What bottom panels leave to the editor.
pub const EDITOR_MIN_HEIGHT: u16 = 5;

/// How many cells a panel asks for of `total`.
pub open spec fn asked(size: PanelSize, total: u16) -> u16 {
    match size {
        PanelSize::Fixed(cells) => match cells {
            Some(n) => n,
            None => 0,
        },
        PanelSize::Percent(percent) => ((total * percent / 100) % 0x1_0000) as u16,
        PanelSize::Fill => total,
        PanelSize::Constrained { min, max } => if total < min {
            min
        } else if total > max {
            max
        } else {
            total
        },
    }
}

/// At least `least`, and at most what leaves `keep` of `available`.
pub open spec fn granted(wanted: u16, least: u16, available: u16, keep: u16) -> int {
    let w = if wanted < least {
        least
    } else {
        wanted
    };
    if w <= available - keep {
        w as int
    } else {
        available - keep
    }
}

/// The area of a panel in a terminal with area `area`, of which `editor` is not given away yet;
/// nothing where there is not enough room to split or the panel is hidden. Panels at the sides
/// reach down over the bottom row.
pub open spec fn panel_area(panel: Panel, area: Rect, editor: Rect) -> Option<Rect> {
    if !panel.visible {
        None
    } else {
        match panel.side {
            PanelSide::Right => if editor.width < 70 {
                None
            } else {
                let w = granted(
                    asked(panel.size, area.width),
                    RIGHT_PANEL_MIN,
                    editor.width,
                    EDITOR_MIN_WIDTH,
                );
                Some(
                    Rect {
                        x: (editor.x + editor.width - w) as u16,
                        y: area.y,
                        width: w as u16,
                        height: area.height,
                    },
                )
            },
            PanelSide::Left => if editor.width <= 60 {
                None
            } else {
                let w = granted(
                    asked(panel.size, area.width),
                    LEFT_PANEL_MIN,
                    editor.width,
                    EDITOR_MIN_WIDTH,
                );
                Some(Rect { x: editor.x, y: area.y, width: w as u16, height: area.height })
            },
            PanelSide::Bottom => if editor.height <= 10 {
                None
            } else {
                let h = granted(
                    asked(panel.size, area.height),
                    BOTTOM_PANEL_MIN,
                    editor.height,
                    EDITOR_MIN_HEIGHT,
                );
                Some(
                    Rect {
                        x: editor.x,
                        y: (editor.y + editor.height - h) as u16,
                        width: editor.width,
                        height: h as u16,
                    },
                )
            },
        }
    }
}

/// What is left of the editor's area when a panel is cut off.
pub open spec fn left_over(side: PanelSide, panel: Rect, editor: Rect) -> Rect {
    match side {
        PanelSide::Right => Rect { width: (editor.width - panel.width) as u16, ..editor },
        PanelSide::Left => Rect {
            x: (editor.x + panel.width) as u16,
            width: (editor.width - panel.width) as u16,
            ..editor
        },
        PanelSide::Bottom => Rect { height: (editor.height - panel.height) as u16, ..editor },
    }
}

/// The split after each of the panels has cut its area off what the ones before it left: what
/// remains for the editor, and the areas of the panels that found room.
pub open spec fn split(panels: Seq<Panel>, area: Rect, editor: Rect) -> (Rect, Seq<(u64, Rect)>)
    decreases panels.len(),
{
    if panels.len() == 0 {
        (editor, seq![])
    } else {
        let (rest, areas) = split(panels.drop_last(), area, editor);
        let panel = panels.last();
        match panel_area(panel, area, rest) {
            Some(cut) => (left_over(panel.side, cut, rest), areas.push((panel.id, cut))),
            None => (rest, areas),
        }
    }
}

/// Whether a row is kept for messages.
pub open spec fn keeps_status_row(area: Rect, style: CmdlineStyle, full_height: bool) -> bool {
    !(style == CmdlineStyle::Popup && full_height) && area.height > 1
}

/// What the editor and its panels share: everything but the row for messages.
pub open spec fn chrome_area(area: Rect, style: CmdlineStyle, full_height: bool) -> Rect {
    if keeps_status_row(area, style, full_height) {
        Rect { height: (area.height - 1) as u16, ..area }
    } else {
        area
    }
}

pub open spec fn status_row(area: Rect, style: CmdlineStyle, full_height: bool) -> Rect {
    if keeps_status_row(area, style, full_height) {
        Rect { x: area.x, y: (area.spec_bottom() - 1) as u16, width: area.width, height: 1 }
    } else {
        Rect { x: area.x, y: area.spec_bottom(), width: area.width, height: 0 }
    }
}

/// The sizes that can be granted at all, of the panels that are shown.
pub open spec fn sizes_ok(panels: Seq<Panel>) -> bool {
    forall|i: int|
        0 <= i < panels.len() && (#[trigger] panels[i]).visible ==> size_ok(panels[i].size)
}

/// A size that can be granted at all.
pub open spec fn size_ok(size: PanelSize) -> bool {
    match size {
        PanelSize::Constrained { min, max } => min <= max,
        _ => true,
    }
}

/// The area of a panel can be cut off: a panel that is shown asks for a size that can be granted,
/// and where it finds room, the edge at which it is cut off has coordinates.
pub open spec fn can_cut(panel: Panel, area: Rect, editor: Rect) -> bool {
    panel.visible ==> {
        &&& size_ok(panel.size)
        &&& match panel.side {
            PanelSide::Right => editor.width >= 70 ==> editor.x + editor.width <= u16::MAX,
            PanelSide::Left => editor.width > 60 ==> editor.x + granted(
                asked(panel.size, area.width),
                LEFT_PANEL_MIN,
                editor.width,
                EDITOR_MIN_WIDTH,
            ) <= u16::MAX,
            PanelSide::Bottom => editor.height > 10 ==> editor.y + editor.height <= u16::MAX,
        }
    }
}

/// The areas of all panels can be cut off, in turn.
pub open spec fn can_split(panels: Seq<Panel>, area: Rect, editor: Rect) -> bool
    decreases panels.len(),
{
    panels.len() == 0 || {
        &&& can_split(panels.drop_last(), area, editor)
        &&& can_cut(panels.last(), area, split(panels.drop_last(), area, editor).0)
    }
}

proof fn lemma_can_split_some(panels: Seq<Panel>, area: Rect, editor: Rect, i: int)
    requires
        0 <= i <= panels.len(),
        can_split(panels, area, editor),
    ensures
        can_split(panels.take(i), area, editor),
    decreases panels.len() - i,
{
    if i < panels.len() {
        lemma_can_split_some(panels, area, editor, i + 1);
        assert(panels.take(i + 1).drop_last() =~= panels.take(i));
    } else {
        assert(panels.take(i) =~= panels);
    }
}

fn ask(size: PanelSize, total: u16) -> (r: u16)
    requires
        size_ok(size),
    ensures
        r == asked(size, total),
{
    match size {
        PanelSize::Fixed(cells) => match cells {
            Some(n) => n,
            None => 0,
        },
        PanelSize::Percent(percent) => {
            assert(total * percent <= 0xffff * 0xff) by (nonlinear_arith)
                requires
                    total <= 0xffff,
                    percent <= 0xff,
            ;
            let cells: u32 = total as u32 * percent as u32 / 100;
            (cells % 0x1_0000) as u16
        },
        PanelSize::Fill => total,
        PanelSize::Constrained { min, max } => if total < min {
            min
        } else if total > max {
            max
        } else {
            total
        },
    }
}

fn grant(wanted: u16, least: u16, available: u16, keep: u16) -> (r: u16)
    requires
        keep <= available,
    ensures
        r == granted(wanted, least, available, keep),
{
    let w: u16 = if wanted < least {
        least
    } else {
        wanted
    };
    if w <= available - keep {
        w
    } else {
        available - keep
    }
}

/// The areas nest and stay apart as panels are cut off.
proof fn lemma_cut(panel: Panel, area: Rect, editor: Rect)
    requires
        area.fits(),
        editor.within(area),
    ensures
        match panel_area(panel, area, editor) {
            Some(cut) => {
                let rest = left_over(panel.side, cut, editor);
                &&& cut.within(area)
                &&& rest.within(editor)
                &&& rest.within(area)
                &&& rest.apart(cut)
                &&& rest.width == editor.width || rest.width >= EDITOR_MIN_WIDTH
                &&& rest.height == editor.height || rest.height >= EDITOR_MIN_HEIGHT
                &&& panel.side != PanelSide::Bottom ==> rest.width + cut.width == editor.width
                    && rest.height == editor.height
                &&& panel.side == PanelSide::Bottom ==> rest.height + cut.height == editor.height
                    && rest.width == editor.width && cut.within(editor)
            },
            None => true,
        },
{
}

proof fn lemma_split(panels: Seq<Panel>, area: Rect, editor: Rect)
    requires
        area.fits(),
        editor.within(area),
    ensures
        ({
            let (rest, areas) = split(panels, area, editor);
            &&& rest.within(editor)
            &&& rest.within(area)
            &&& rest.width == editor.width || rest.width >= EDITOR_MIN_WIDTH
            &&& rest.height == editor.height || rest.height >= EDITOR_MIN_HEIGHT
            &&& forall|i: int|
                0 <= i < areas.len() ==> (#[trigger] areas[i]).1.within(area) && rest.apart(
                    areas[i].1,
                )
        }),
    decreases panels.len(),
{
    if panels.len() > 0 {
        lemma_split(panels.drop_last(), area, editor);
        let (before, _) = split(panels.drop_last(), area, editor);
        lemma_cut(panels.last(), area, before);
    }
}

/// Splits the terminal between the editor and the panels. Panels take from the editor's area on
/// the side that they are docked to, in turn.
pub fn compute_panel_layout(
    area: Rect,
    panels: &Vec<Panel>,
    style: CmdlineStyle,
    full_height: bool,
) -> (r: PanelLayout)
    requires
        can_split(panels@, area, chrome_area(area, style, full_height)),
    ensures
        (r.editor_area, r.panel_areas@) == split(
            panels@,
            area,
            chrome_area(area, style, full_height),
        ),
        r.global_status_row == status_row(area, style, full_height),
{
    let is_popup = match style {
        CmdlineStyle::Popup => true,
        CmdlineStyle::Bottom => false,
    };
    let reserve_global = !(is_popup && full_height);
    let (chrome, global_status_row) = if reserve_global && area.height > 1 {
        (
            area.clip_bottom(1),
            Rect { x: area.x, y: area.bottom() - 1, width: area.width, height: 1 },
        )
    } else {
        (area, Rect { x: area.x, y: area.bottom(), width: area.width, height: 0 })
    };
    assert(chrome == chrome_area(area, style, full_height));
    let mut editor_area = chrome;
    let mut panel_areas: Vec<(u64, Rect)> = Vec::new();
    let mut i: usize = 0;
    assert(panels@.take(0) =~= seq![]);
    assert(panel_areas@ =~= seq![]);
    while i < panels.len()
        invariant
            i <= panels@.len(),
            can_split(panels@, area, chrome),
            (editor_area, panel_areas@) == split(panels@.take(i as int), area, chrome),
        decreases panels@.len() - i,
    {
        let panel = panels[i];
        proof {
            lemma_can_split_some(panels@, area, chrome, i + 1);
            assert(panels@.take(i + 1).drop_last() =~= panels@.take(i as int));
            assert(panels@[i as int] == panel);
        }
        i += 1;
        if !panel.visible {
            continue;
        }
        match panel.side {
            PanelSide::Right => {
                if editor_area.width < 70 {
                    continue;
                }
                let wanted: u16 = ask(panel.size, area.width);
                let w: u16 = grant(wanted, RIGHT_PANEL_MIN, editor_area.width, EDITOR_MIN_WIDTH);
                panel_areas.push(
                    (
                        panel.id,
                        Rect {
                            x: editor_area.x + (editor_area.width - w),
                            y: area.y,
                            width: w,
                            height: area.height,
                        },
                    ),
                );
                editor_area = Rect { width: editor_area.width - w, ..editor_area };
            },
            PanelSide::Left => {
                if editor_area.width <= 60 {
                    continue;
                }
                let wanted: u16 = ask(panel.size, area.width);
                let w: u16 = grant(wanted, LEFT_PANEL_MIN, editor_area.width, EDITOR_MIN_WIDTH);
                panel_areas.push(
                    (panel.id, Rect { x: editor_area.x, y: area.y, width: w, height: area.height }),
                );
                editor_area = Rect { x: editor_area.x + w, width: editor_area.width - w, ..editor_area };
            },
            PanelSide::Bottom => {
                if editor_area.height <= 10 {
                    continue;
                }
                let wanted: u16 = ask(panel.size, area.height);
                let h: u16 = grant(wanted, BOTTOM_PANEL_MIN, editor_area.height, EDITOR_MIN_HEIGHT);
                panel_areas.push(
                    (
                        panel.id,
                        Rect {
                            x: editor_area.x,
                            y: editor_area.y + (editor_area.height - h),
                            width: editor_area.width,
                            height: h,
                        },
                    ),
                );
                editor_area = Rect { height: editor_area.height - h, ..editor_area };
            },
        }
    }
    assert(panels@.take(i as int) =~= panels@);
    PanelLayout { editor_area, panel_areas, global_status_row }
}

/// A terminal whose far edges have coordinates can be split between the editor and any panels
/// that ask for sizes that can be granted.
pub proof fn law_terminals_can_be_split(panels: Seq<Panel>, area: Rect, editor: Rect)
    requires
        area.fits(),
        editor.within(area),
        sizes_ok(panels),
    ensures
        can_split(panels, area, editor),
    decreases panels.len(),
{
    if panels.len() > 0 {
        assert forall|i: int|
            0 <= i < panels.drop_last().len() && (
            #[trigger] panels.drop_last()[i]).visible implies size_ok(
            panels.drop_last()[i].size,
        ) by {
            assert(panels[i].visible);
        }
        law_terminals_can_be_split(panels.drop_last(), area, editor);
        lemma_split(panels.drop_last(), area, editor);
        assert(panels[panels.len() - 1] == panels.last());
    }
}

/// Every terminal can be left to the editor where no panel is shown.
pub proof fn law_hidden_panels_ask_for_nothing(panels: Seq<Panel>, area: Rect, editor: Rect)
    requires
        forall|i: int| 0 <= i < panels.len() ==> !(#[trigger] panels[i]).visible,
    ensures
        can_split(panels, area, editor),
    decreases panels.len(),
{
    if panels.len() > 0 {
        assert forall|i: int| 0 <= i < panels.drop_last().len() implies !(
        #[trigger] panels.drop_last()[i]).visible by {
            assert(!panels[i].visible);
        }
        law_hidden_panels_ask_for_nothing(panels.drop_last(), area, editor);
        assert(!panels[panels.len() - 1].visible);
    }
}

/// The editor keeps at least its minimum of columns and rows, or all that it had.
pub proof fn law_editor_keeps_its_minimum(panels: Seq<Panel>, area: Rect, editor: Rect)
    requires
        area.fits(),
        editor.within(area),
    ensures
        split(panels, area, editor).0.width == editor.width || split(panels, area, editor).0.width
            >= EDITOR_MIN_WIDTH,
        split(panels, area, editor).0.height == editor.height || split(
            panels,
            area,
            editor,
        ).0.height >= EDITOR_MIN_HEIGHT,
        editor.width > 0 ==> split(panels, area, editor).0.width > 0,
        editor.height > 0 ==> split(panels, area, editor).0.height > 0,
{
    lemma_split(panels, area, editor);
}

/// The editor shares no cell with any panel, and every area lies inside the terminal.
pub proof fn law_editor_is_apart_from_panels(panels: Seq<Panel>, area: Rect, editor: Rect)
    requires
        area.fits(),
        editor.within(area),
    ensures
        split(panels, area, editor).0.within(area),
        forall|i: int|
            0 <= i < split(panels, area, editor).1.len() ==> (#[trigger] split(
                panels,
                area,
                editor,
            ).1[i]).1.within(area) && split(panels, area, editor).0.apart(
                split(panels, area, editor).1[i].1,
            ),
{
    lemma_split(panels, area, editor);
}

/// The columns that side panels have taken.
pub open spec fn side_columns(panels: Seq<Panel>, area: Rect, editor: Rect) -> int
    decreases panels.len(),
{
    if panels.len() == 0 {
        0
    } else {
        let before = side_columns(panels.drop_last(), area, editor);
        let rest = split(panels.drop_last(), area, editor).0;
        match panel_area(panels.last(), area, rest) {
            Some(cut) => if panels.last().side == PanelSide::Bottom {
                before
            } else {
                before + cut.width
            },
            None => before,
        }
    }
}

/// Side panels and the editor together have exactly the columns that there were.
pub proof fn law_columns_are_shared_out(panels: Seq<Panel>, area: Rect, editor: Rect)
    requires
        area.fits(),
        editor.within(area),
    ensures
        side_columns(panels, area, editor) + split(panels, area, editor).0.width == editor.width,
    decreases panels.len(),
{
    if panels.len() > 0 {
        law_columns_are_shared_out(panels.drop_last(), area, editor);
        lemma_split(panels.drop_last(), area, editor);
        lemma_cut(panels.last(), area, split(panels.drop_last(), area, editor).0);
    }
}

/// The rows that bottom panels have taken.
pub open spec fn bottom_rows(panels: Seq<Panel>, area: Rect, editor: Rect) -> int
    decreases panels.len(),
{
    if panels.len() == 0 {
        0
    } else {
        let before = bottom_rows(panels.drop_last(), area, editor);
        let rest = split(panels.drop_last(), area, editor).0;
        match panel_area(panels.last(), area, rest) {
            Some(cut) => if panels.last().side == PanelSide::Bottom {
                before + cut.height
            } else {
                before
            },
            None => before,
        }
    }
}

/// Bottom panels and the editor together have exactly the rows that there were.
pub proof fn law_rows_are_shared_out(panels: Seq<Panel>, area: Rect, editor: Rect)
    requires
        area.fits(),
        editor.within(area),
    ensures
        bottom_rows(panels, area, editor) + split(panels, area, editor).0.height == editor.height,
    decreases panels.len(),
{
    if panels.len() > 0 {
        law_rows_are_shared_out(panels.drop_last(), area, editor);
        lemma_split(panels.drop_last(), area, editor);
        lemma_cut(panels.last(), area, split(panels.drop_last(), area, editor).0);
    }
}

/// Hidden panels change nothing.
pub proof fn law_hidden_panels_take_no_room(panels: Seq<Panel>, area: Rect, editor: Rect)
    requires
        forall|i: int| 0 <= i < panels.len() ==> !(#[trigger] panels[i]).visible,
    ensures
        split(panels, area, editor).0 == editor,
        split(panels, area, editor).1.len() == 0,
    decreases panels.len(),
{
    if panels.len() > 0 {
        assert forall|i: int| 0 <= i < panels.drop_last().len() implies !(
        #[trigger] panels.drop_last()[i]).visible by {
            assert(!panels[i].visible);
        }
        law_hidden_panels_take_no_room(panels.drop_last(), area, editor);
        assert(!panels[panels.len() - 1].visible);
    }
}

/// The area of the first entry with the id.
pub open spec fn area_of(areas: Seq<(u64, Rect)>, id: u64) -> Option<Rect>
    decreases areas.len(),
{
    if areas.len() == 0 {
        None
    } else if areas[0].0 == id {
        Some(areas[0].1)
    } else {
        area_of(areas.skip(1), id)
    }
}

/// The panel that a cell belongs to: the first one, where several have the cell.
pub open spec fn panel_at(areas: Seq<(u64, Rect)>, column: u16, row: u16) -> Option<u64>
    decreases areas.len(),
{
    if areas.len() == 0 {
        None
    } else if areas[0].1.has(column as int, row as int) {
        Some(areas[0].0)
    } else {
        panel_at(areas.skip(1), column, row)
    }
}

/// Where a component goes: a filling one into the editor's area, a docked one into that of its
/// panel (or nowhere), and any other gets everything.
pub open spec fn resolved_area(
    role: LayoutRole,
    panel_id: Option<u64>,
    full_area: Rect,
    editor_area: Rect,
    areas: Seq<(u64, Rect)>,
) -> Rect {
    match role {
        LayoutRole::Fill => editor_area,
        LayoutRole::Docked => match panel_id {
            Some(id) => match area_of(areas, id) {
                Some(area) => area,
                None => Rect::nothing(),
            },
            None => Rect::nothing(),
        },
        LayoutRole::Overlay => full_area,
    }
}

pub fn resolve_area(
    role: LayoutRole,
    panel_id: Option<u64>,
    full_area: Rect,
    layout: &PanelLayout,
) -> (r: Rect)
    ensures
        r == resolved_area(role, panel_id, full_area, layout.editor_area, layout.panel_areas@),
{
    match role {
        LayoutRole::Fill => layout.editor_area,
        LayoutRole::Docked => {
            match panel_id {
                Some(id) => {
                    let mut i: usize = 0;
                    assert(layout.panel_areas@.skip(0) =~= layout.panel_areas@);
                    while i < layout.panel_areas.len()
                        invariant
                            i <= layout.panel_areas@.len(),
                            role == LayoutRole::Docked,
                            panel_id == Some(id),
                            area_of(layout.panel_areas@, id) == area_of(
                                layout.panel_areas@.skip(i as int),
                                id,
                            ),
                        decreases layout.panel_areas@.len() - i,
                    {
                        assert(layout.panel_areas@.skip(i as int).skip(1)
                            =~= layout.panel_areas@.skip(i + 1));
                        if layout.panel_areas[i].0 == id {
                            return layout.panel_areas[i].1;
                        }
                        i += 1;
                    }
                    Rect { x: 0, y: 0, width: 0, height: 0 }
                },
                None => Rect { x: 0, y: 0, width: 0, height: 0 },
            }
        },
        LayoutRole::Overlay => full_area,
    }
}

impl PanelLayout {
    /// The panel under a cell.
    pub fn panel_at(&self, column: u16, row: u16) -> (r: Option<u64>)
        ensures
            r == panel_at(self.panel_areas@, column, row),
    {
        let mut i: usize = 0;
        assert(self.panel_areas@.skip(0) =~= self.panel_areas@);
        while i < self.panel_areas.len()
            invariant
                i <= self.panel_areas@.len(),
                panel_at(self.panel_areas@, column, row) == panel_at(
                    self.panel_areas@.skip(i as int),
                    column,
                    row,
                ),
            decreases self.panel_areas@.len() - i,
        {
            assert(self.panel_areas@.skip(i as int).skip(1) =~= self.panel_areas@.skip(i + 1));
            if self.panel_areas[i].1.contains(column, row) {
                return Some(self.panel_areas[i].0);
            }
            i += 1;
        }
        None
    }

    /// The same layout again.
    pub fn copy(&self) -> (r: PanelLayout)
        ensures
            r.editor_area == self.editor_area,
            r.panel_areas@ == self.panel_areas@,
            r.global_status_row == self.global_status_row,
    {
        let mut panel_areas: Vec<(u64, Rect)> = Vec::new();
        let mut i: usize = 0;
        while i < self.panel_areas.len()
            invariant
                i <= self.panel_areas@.len(),
                panel_areas@ == self.panel_areas@.take(i as int),
            decreases self.panel_areas@.len() - i,
        {
            panel_areas.push(self.panel_areas[i]);
            i += 1;
            assert(self.panel_areas@.take(i as int) =~= self.panel_areas@.take(i - 1).push(
                self.panel_areas@[i - 1],
            ));
        }
        assert(self.panel_areas@.take(i as int) =~= self.panel_areas@);
        PanelLayout {
            editor_area: self.editor_area,
            panel_areas,
            global_status_row: self.global_status_row,
        }
    }
}

/// The panel under a cell is the first whose area has the cell; there is none where no area has.
pub proof fn law_cells_belong_to_the_first_panel(areas: Seq<(u64, Rect)>, column: u16, row: u16)
    ensures
        match panel_at(areas, column, row) {
            Some(id) => exists|i: int|
                {
                    &&& 0 <= i < areas.len()
                    &&& (#[trigger] areas[i]).0 == id
                    &&& areas[i].1.has(column as int, row as int)
                    &&& forall|j: int|
                        0 <= j < i ==> !(#[trigger] areas[j]).1.has(column as int, row as int)
                },
            None => forall|i: int|
                0 <= i < areas.len() ==> !(#[trigger] areas[i]).1.has(column as int, row as int),
        },
    decreases areas.len(),
{
    if areas.len() > 0 {
        if areas[0].1.has(column as int, row as int) {
            assert(areas[0].0 == panel_at(areas, column, row)->0);
        } else {
            let rest = areas.skip(1);
            law_cells_belong_to_the_first_panel(rest, column, row);
            match panel_at(rest, column, row) {
                Some(id) => {
                    let i = choose|i: int|
                        {
                            &&& 0 <= i < rest.len()
                            &&& (#[trigger] rest[i]).0 == id
                            &&& rest[i].1.has(column as int, row as int)
                            &&& forall|j: int|
                                0 <= j < i ==> !(#[trigger] rest[j]).1.has(
                                    column as int,
                                    row as int,
                                )
                        };
                    assert(areas[i + 1] == rest[i]);
                    assert forall|j: int| 0 <= j < i + 1 implies !(#[trigger] areas[j]).1.has(
                        column as int,
                        row as int,
                    ) by {
                        if j > 0 {
                            assert(areas[j] == rest[j - 1]);
                        }
                    }
                },
                None => {
                    assert forall|i: int| 0 <= i < areas.len() implies !(#[trigger] areas[i]).1.has(
                        column as int,
                        row as int,
                    ) by {
                        if i > 0 {
                            assert(areas[i] == rest[i - 1]);
                        }
                    }
                },
            }
        }
    }
}

/// The area of a panel is that of the first entry with its id.
pub proof fn law_panels_have_their_own_area(areas: Seq<(u64, Rect)>, id: u64)
    ensures
        match area_of(areas, id) {
            Some(area) => exists|i: int|
                {
                    &&& 0 <= i < areas.len()
                    &&& #[trigger] areas[i] == (id, area)
                    &&& forall|j: int| 0 <= j < i ==> (#[trigger] areas[j]).0 != id
                },
            None => forall|i: int| 0 <= i < areas.len() ==> (#[trigger] areas[i]).0 != id,
        },
    decreases areas.len(),
{
    if areas.len() > 0 {
        if areas[0].0 == id {
            assert(areas[0] == (id, areas[0].1));
        } else {
            let rest = areas.skip(1);
            law_panels_have_their_own_area(rest, id);
            match area_of(rest, id) {
                Some(area) => {
                    let i = choose|i: int|
                        {
                            &&& 0 <= i < rest.len()
                            &&& #[trigger] rest[i] == (id, area)
                            &&& forall|j: int| 0 <= j < i ==> (#[trigger] rest[j]).0 != id
                        };
                    assert(areas[i + 1] == rest[i]);
                    assert forall|j: int| 0 <= j < i + 1 implies (#[trigger] areas[j]).0 != id by {
                        if j > 0 {
                            assert(areas[j] == rest[j - 1]);
                        }
                    }
                },
                None => {
                    assert forall|i: int| 0 <= i < areas.len() implies (#[trigger] areas[i]).0
                        != id by {
                        if i > 0 {
                            assert(areas[i] == rest[i - 1]);
                        }
                    }
                },
            }
        }
    }
}

/// A panel is cut off at the edge that it is docked to, and is as large as it asks for where that
/// leaves the editor its minimum. Panels at a side are as high as the terminal, one below is as
/// wide as the editor.
pub proof fn law_panels_are_cut_off_at_their_side(panel: Panel, area: Rect, editor: Rect)
    requires
        area.fits(),
        editor.within(area),
    ensures
        panel_area(panel, area, editor) matches Some(cut) ==> {
            let rest = left_over(panel.side, cut, editor);
            &&& panel.visible
            &&& match panel.side {
                PanelSide::Left => {
                    &&& cut.x == editor.x
                    &&& rest.x == cut.x + cut.width
                    &&& rest.x + rest.width == editor.x + editor.width
                    &&& cut.y == area.y && cut.height == area.height
                    &&& rest.width >= 40 && cut.width >= 20
                    &&& 20 <= asked(panel.size, area.width) <= editor.width - 40 ==> cut.width
                        == asked(panel.size, area.width)
                },
                PanelSide::Right => {
                    &&& cut.x + cut.width == editor.x + editor.width
                    &&& rest.x == editor.x
                    &&& rest.x + rest.width == cut.x
                    &&& cut.y == area.y && cut.height == area.height
                    &&& rest.width >= 40 && cut.width >= 30
                    &&& 30 <= asked(panel.size, area.width) <= editor.width - 40 ==> cut.width
                        == asked(panel.size, area.width)
                },
                PanelSide::Bottom => {
                    &&& cut.y + cut.height == editor.y + editor.height
                    &&& rest.y == editor.y
                    &&& rest.y + rest.height == cut.y
                    &&& cut.x == editor.x && cut.width == editor.width
                    &&& rest.height >= 5 && cut.height >= 5
                    &&& 5 <= asked(panel.size, area.height) <= editor.height - 5 ==> cut.height
                        == asked(panel.size, area.height)
                },
            }
        },
{
}

/// What a panel asks for: so many cells, a part of the whole, all of it, or all of it within
/// limits.
pub proof fn law_sizes_are_asked_for(total: u16, cells: u16, percent: u8, min: u16, max: u16)
    requires
        min <= max,
        percent <= 100,
    ensures
        asked(PanelSize::Fixed(Some(cells)), total) == cells,
        asked(PanelSize::Fixed(None), total) == 0,
        asked(PanelSize::Fill, total) == total,
        asked(PanelSize::Percent(percent), total) * 100 <= total * percent < (asked(
            PanelSize::Percent(percent),
            total,
        ) + 1) * 100,
        min <= asked(PanelSize::Constrained { min, max }, total) <= max,
        min <= total <= max ==> asked(PanelSize::Constrained { min, max }, total) == total,
{
    assert(0 <= total * percent <= total * 100) by (nonlinear_arith)
        requires
            0 <= percent <= 100,
            0 <= total,
    ;
}

/// The row for messages is the last row of the terminal, and the editor and its panels have all
/// rows above it; without it they have all rows.
pub proof fn law_the_status_row_is_the_last(area: Rect, style: CmdlineStyle, full_height: bool)
    requires
        area.fits(),
    ensures
        ({
            let chrome = chrome_area(area, style, full_height);
            let row = status_row(area, style, full_height);
            &&& chrome.within(area) && row.within(area)
            &&& chrome.x == area.x && chrome.width == area.width && chrome.y == area.y
            &&& row.x == area.x && row.width == area.width
            &&& chrome.height + row.height == area.height
            &&& row.y + row.height == area.y + area.height
            &&& row.height == (if area.height > 1 && !(style == CmdlineStyle::Popup && full_height) {
                1int
            } else {
                0int
            })
        }),
{
}

/// A panel shows exactly if it is visible and the editor has room for both.
pub proof fn law_panels_show_where_there_is_room(panel: Panel, area: Rect, editor: Rect)
    ensures
        panel_area(panel, area, editor) is Some <==> panel.visible && match panel.side {
            PanelSide::Left => editor.width > 60,
            PanelSide::Right => editor.width >= 70,
            PanelSide::Bottom => editor.height > 10,
        },
{
}

/// Panels are cut off one after the other, each from what those before it have left.
pub proof fn law_panels_are_cut_off_in_turn(
    panels: Seq<Panel>,
    panel: Panel,
    area: Rect,
    editor: Rect,
)
    ensures
        split(Seq::<Panel>::empty(), area, editor) == (editor, Seq::<(u64, Rect)>::empty()),
        ({
            let (rest, areas) = split(panels, area, editor);
            let (after, all) = split(panels.push(panel), area, editor);
            match panel_area(panel, area, rest) {
                Some(cut) => {
                    &&& all == areas.push((panel.id, cut))
                    &&& after == left_over(panel.side, cut, rest)
                },
                None => all == areas && after == rest,
            }
        }),
{
    assert(panels.push(panel).drop_last() =~= panels);
}

/// A layer that fills has the area of the editor, one on top the whole terminal, and a docked one
/// the area of its panel, or nothing while that does not show.
pub proof fn law_layers_lie_where_they_belong(
    id: u64,
    other: Option<u64>,
    full_area: Rect,
    editor_area: Rect,
    areas: Seq<(u64, Rect)>,
    i: int,
)
    requires
        0 <= i < areas.len(),
        areas[i].0 == id,
        forall|j: int| 0 <= j < i ==> (#[trigger] areas[j]).0 != id,
    ensures
        resolved_area(LayoutRole::Fill, other, full_area, editor_area, areas) == editor_area,
        resolved_area(LayoutRole::Overlay, other, full_area, editor_area, areas) == full_area,
        resolved_area(LayoutRole::Docked, Some(id), full_area, editor_area, areas) == areas[i].1,
        resolved_area(LayoutRole::Docked, None, full_area, editor_area, areas).width == 0,
        other is Some && (forall|j: int| 0 <= j < areas.len() ==> (#[trigger] areas[j]).0 != other->0)
            ==> resolved_area(LayoutRole::Docked, other, full_area, editor_area, areas).width == 0,
{
    law_panels_have_their_own_area(areas, id);
    if other is Some {
        law_panels_have_their_own_area(areas, other->0);
    }
}

} // verus!
