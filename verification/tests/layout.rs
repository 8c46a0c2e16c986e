use helix_term::geometry::Rect;
use helix_term::layout::{
    compute_panel_layout, resolve_area, CmdlineStyle, LayoutRole, Panel, PanelSide, PanelSize,
};

fn assistant(size: PanelSize, visible: bool) -> Vec<Panel> {
    vec![Panel { id: 7, side: PanelSide::Right, size, visible }]
}

#[test]
fn panel_layout_right_percent35_splits_correctly() {
    let panels = assistant(PanelSize::Percent(35), true);
    let layout =
        compute_panel_layout(Rect::new(0, 0, 120, 40), &panels, CmdlineStyle::Bottom, false);

    // 35% of 120 = 42, clamped to min 30, max (120-40)=80 → 42
    assert_eq!(layout.panel_areas.len(), 1);
    let (_, panel_rect) = &layout.panel_areas[0];
    assert_eq!(panel_rect.width, 42);
    assert_eq!(layout.editor_area.width, 78); // 120 - 42
    assert_eq!(layout.editor_area.x, 0);
    assert_eq!(panel_rect.x, 78);
    // Bottom row reserved for the global status line; side panels
    // underlap it so their internal footer/status row aligns with the
    // editor statusline one row above the global message row.
    assert_eq!(layout.editor_area.height, 39);
    assert_eq!(panel_rect.height, 40);
    assert_eq!(layout.global_status_row, Rect::new(0, 39, 120, 1));
}

#[test]
fn panel_layout_side_panel_footer_aligns_with_editor_statusline() {
    let panels = assistant(PanelSize::Percent(35), true);
    let layout =
        compute_panel_layout(Rect::new(0, 0, 120, 40), &panels, CmdlineStyle::Bottom, false);
    let (_, panel_rect) = &layout.panel_areas[0];

    let editor_statusline_row = layout.editor_area.bottom().saturating_sub(1);
    let panel_footer_row = panel_rect.bottom().saturating_sub(2);
    assert_eq!(panel_footer_row, editor_statusline_row);
    assert_eq!(layout.global_status_row.y, panel_rect.bottom().saturating_sub(1));
}

#[test]
fn panel_layout_right_hidden_when_narrow() {
    let panels = assistant(PanelSize::Percent(35), true);
    let layout =
        compute_panel_layout(Rect::new(0, 0, 50, 24), &panels, CmdlineStyle::Bottom, false);

    // Terminal too narrow (≤60) — panel should be skipped
    assert!(layout.panel_areas.is_empty());
    assert_eq!(layout.editor_area.width, 50);
    // Bottom row reserved for the global status line.
    assert_eq!(layout.editor_area.height, 23);
}

#[test]
fn panel_layout_skips_hidden_panels() {
    let panels = assistant(PanelSize::Percent(35), false);
    let layout =
        compute_panel_layout(Rect::new(0, 0, 120, 40), &panels, CmdlineStyle::Bottom, false);

    assert!(layout.panel_areas.is_empty());
    // Bottom row reserved for the global status line — editor gets the rest.
    assert_eq!(layout.editor_area, Rect::new(0, 0, 120, 39));
    assert_eq!(layout.global_status_row, Rect::new(0, 39, 120, 1));
}

#[test]
fn panel_layout_uses_panel_id_not_string() {
    let panels = assistant(PanelSize::Percent(35), true);
    let layout =
        compute_panel_layout(Rect::new(0, 0, 120, 40), &panels, CmdlineStyle::Bottom, false);

    // Layout is keyed by the panel's id — impossible to mismatch with component.
    let (id, rect) = &layout.panel_areas[0];
    assert_eq!(*id, 7);
    assert!(rect.width > 0);
    assert_eq!(layout.panel_at(79, 3), Some(7));
    assert_eq!(layout.panel_at(10, 3), None);
    assert_eq!(resolve_area(LayoutRole::Docked, Some(7), Rect::new(0, 0, 120, 40), &layout), *rect);
}

#[test]
fn panel_layout_editor_area_never_zero() {
    let panels = assistant(PanelSize::Percent(90), true);
    let layout =
        compute_panel_layout(Rect::new(0, 0, 80, 24), &panels, CmdlineStyle::Bottom, false);

    // Even with 90%, editor should keep at least 40 cols
    assert!(layout.editor_area.width >= 40, "editor width: {}", layout.editor_area.width);
    assert_eq!(layout.editor_area.width + layout.panel_areas[0].1.width, 80);
}

#[test]
fn panels_on_every_side_stay_apart() {
    let panels = vec![
        Panel { id: 1, side: PanelSide::Left, size: PanelSize::Fixed(Some(25)), visible: true },
        Panel { id: 2, side: PanelSide::Right, size: PanelSize::Fixed(Some(30)), visible: true },
        Panel { id: 3, side: PanelSide::Bottom, size: PanelSize::Fixed(Some(8)), visible: true },
    ];
    let layout =
        compute_panel_layout(Rect::new(0, 0, 200, 50), &panels, CmdlineStyle::Bottom, false);
    assert_eq!(layout.panel_areas.len(), 3);
    for (_, rect) in &layout.panel_areas {
        let editor = layout.editor_area;
        let apart = rect.x + rect.width <= editor.x
            || editor.x + editor.width <= rect.x
            || rect.y + rect.height <= editor.y
            || editor.y + editor.height <= rect.y;
        assert!(apart, "{:?} covers {:?}", rect, editor);
    }
}

#[test]
fn panels_below_share_the_rows_with_the_editor() {
    let below = |id, rows| Panel {
        id,
        side: PanelSide::Bottom,
        size: PanelSize::Fixed(Some(rows)),
        visible: true,
    };
    let panels = vec![below(1, 8), below(2, 6)];
    let area = Rect::new(0, 0, 120, 50);
    let layout = compute_panel_layout(area, &panels, CmdlineStyle::Bottom, true);
    let none = compute_panel_layout(area, &Vec::new(), CmdlineStyle::Bottom, true);
    let rows: u16 = layout.panel_areas.iter().map(|(_, rect)| rect.height).sum();
    assert_eq!(layout.panel_areas.len(), 2);
    assert_eq!(rows + layout.editor_area.height, none.editor_area.height);
}

#[test]
fn hidden_panels_ask_for_nothing() {
    let hidden = Panel {
        id: 1,
        side: PanelSide::Left,
        size: PanelSize::Constrained { min: 9, max: 3 },
        visible: false,
    };
    let area = Rect::new(u16::MAX, u16::MAX - 1, 200, 50);
    let layout = compute_panel_layout(area, &vec![hidden], CmdlineStyle::Bottom, false);
    assert_eq!(layout.editor_area, Rect::new(u16::MAX, u16::MAX - 1, 200, 49));
    assert!(layout.panel_areas.is_empty());
    assert_eq!(layout.global_status_row, Rect::new(u16::MAX, u16::MAX - 1, 200, 1));
}

#[test]
fn rectangles_are_clipped() {
    let area = Rect::new(2, 3, 10, 4);
    assert_eq!(area.bottom(), 7);
    assert_eq!(area.clip_bottom(1), Rect::new(2, 3, 10, 3));
    assert_eq!(area.clip_top(1), Rect::new(2, 4, 10, 3));
    assert_eq!(area.clip_top(9), Rect::new(2, 7, 10, 0));
    assert!(area.contains(2, 3));
    assert!(!area.contains(12, 3));
    assert_eq!(LayoutRole::default_role(), LayoutRole::Overlay);
}
