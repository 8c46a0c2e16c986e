use helix_term::compositor::event::{
    canonicalize, handle_autoinfo_scroll, Dispatch, Entered, Event, EventResult, MacroState,
    MouseButton, MouseEvent, MouseEventKind, MouseRoute,
};
use helix_term::compositor::frame::{
    place_message, BufferLineRenderMode, CursorKind, FrameFacts, FrameStep, MessagePlace,
    MessageStyle, Position, PrepareStep, Severity,
};
use helix_term::compositor::post_action::{
    apply_post_action, completion_filter_step, Count, FilterStep, PostAction, PostEffect,
};
use helix_term::compositor::render_frame::{RenderContext, RenderSnapshot};
use helix_term::compositor::run::{Run, RunStep};
use helix_term::compositor::{Compositor, Layer, ScrollState};
use helix_term::effect::dap::breakpoints::{toggle_breakpoint, FileBreakpoints};
use helix_term::effect::dap::StackFrame;
use helix_term::geometry::Rect;
use helix_term::host::Invalidation;
use helix_term::keymap::key::{KeyCode, KeyEvent, SHIFT};
use helix_term::layout::{CmdlineStyle, LayoutRole, Panel, PanelSide, PanelSize};

fn layer(id: &str, role: LayoutRole) -> Layer<&'static str> {
    Layer {
        id: Some(id.to_string()),
        component_name: "Probe".to_string(),
        role,
        panel_id: None,
        focusable: false,
        focused: false,
        scroll: None,
        picks: false,
        component: "probe",
    }
}

/// Does everything that is left of a run; no layer answers anything. Returned are the effects and
/// which layers were asked about which keys.
fn finish(
    run: &mut Run<&'static str>,
    compositor: &mut Compositor<&'static str>,
    macros: &mut MacroState,
) -> (Vec<PostEffect<&'static str>>, Vec<(usize, KeyEvent)>) {
    let mut effects = Vec::new();
    let mut asked = Vec::new();
    loop {
        match run.step(compositor, macros) {
            RunStep::Done => return (effects, asked),
            RunStep::GoOn => {}
            RunStep::Effect(effect) => effects.push(effect),
            RunStep::AskLayer(layer) => {
                if let Some(Event::Key(key)) = run.asked() {
                    asked.push((layer, *key));
                }
                run.answer(EventResult::Ignored(None));
            }
        }
    }
}

/// Applies a request and whatever it leads to.
fn apply(
    compositor: &mut Compositor<&'static str>,
    macros: &mut MacroState,
    action: PostAction<&'static str>,
) {
    finish(&mut Run::of(action), compositor, macros);
}

#[test]
fn apply_post_action_dispatches_layer_requests() {
    let mut macros = MacroState { recording: None, replaying: vec!['@'] };
    let mut compositor = Compositor::new(Rect::new(0, 0, 20, 10));
    apply(
        &mut compositor,
        &mut macros,
        PostAction::Batch(vec![
            PostAction::PushLayer(layer("old", LayoutRole::Overlay)),
            PostAction::ReplaceOrPushLayer {
                id: "old".to_string(),
                layer: layer("new", LayoutRole::Overlay),
            },
            PostAction::RemoveById("missing".to_string()),
            PostAction::ReplayKeys { keys: Vec::new(), count: 2, pop_macro_replaying: true },
        ]),
    );

    assert!(compositor.find_id("old").is_none());
    assert!(compositor.find_id("new").is_some());
    assert!(macros.replaying.is_empty());

    apply(
        &mut compositor,
        &mut macros,
        PostAction::PopLayer { model_layer: None, remember_picker: true },
    );
    assert_eq!(compositor.layer_count(), 0);
    assert!(compositor.last_picker.is_some());

    apply(&mut compositor, &mut macros, PostAction::RestoreLastPicker);
    assert!(compositor.find_id("new").is_some());
}

#[test]
fn restoring_no_picker_is_an_error() {
    let mut compositor: Compositor<&'static str> = Compositor::new(Rect::new(0, 0, 20, 10));
    match apply_post_action(&mut compositor, PostAction::RestoreLastPicker) {
        PostEffect::SetError(message) => assert_eq!(message, "no last picker"),
        _ => panic!("no error"),
    }
    let pop = PostAction::PopLayer { model_layer: Some(3), remember_picker: false };
    assert!(matches!(apply_post_action(&mut compositor, pop), PostEffect::RemoveModelLayer(3)));
}

#[test]
fn layers_are_found_replaced_and_removed() {
    let mut compositor = Compositor::new(Rect::new(0, 0, 20, 10));
    assert_eq!(compositor.push(layer("a", LayoutRole::Fill)), (20, 10));
    compositor.push(layer("picker", LayoutRole::Overlay));
    assert_eq!(compositor.find_picker(), None);
    compositor.layers[1].picks = true;
    assert_eq!(compositor.find_picker(), Some(1));
    assert_eq!(compositor.find_id_of_type("a", "Probe"), Some(0));
    assert_eq!(compositor.find_id_of_type("a", "Prompt"), None);
    assert_eq!(compositor.find("Probe"), Some(0));
    assert!(compositor.has_component("Probe"));
    assert!(!compositor.has_component("Other"));
    assert_eq!(compositor.replace_or_push("a", layer("b", LayoutRole::Fill)), None);
    assert_eq!(compositor.layer_count(), 2);
    assert_eq!(compositor.find_id("b"), Some(0));
    assert_eq!(compositor.find_id("a"), None);
    assert!(compositor.remove_by_id("b").is_some());
    assert!(compositor.remove("b").is_none());
    compositor.remove_type("Probe");
    assert_eq!(compositor.layer_count(), 0);
    compositor.request_timer(1, 50);
    compositor.request_timer(2, 10);
    assert_eq!(compositor.take_pending_timers(), vec![(1, 50), (2, 10)]);
    assert!(compositor.take_pending_timers().is_empty());
    assert!(!compositor.full_redraw);
    compositor.invalidate(Invalidation::Full);
    assert!(compositor.full_redraw);
    compositor.resize(Rect::new(0, 0, 30, 12));
    assert_eq!(compositor.size(), Rect::new(0, 0, 30, 12));
}

fn mouse(kind: MouseEventKind, column: u16, row: u16) -> MouseEvent {
    MouseEvent { kind, column, row, modifiers: 0 }
}

fn facts() -> FrameFacts {
    FrameFacts {
        cmdline_style: CmdlineStyle::Bottom,
        cmdline_full_height: false,
        bufferline: BufferLineRenderMode::Never,
        multiple_documents: false,
        info: true,
        floats: 0,
    }
}

#[test]
fn frames_draw_every_layer_where_it_belongs() {
    let area = Rect::new(0, 0, 120, 40);
    let mut compositor = Compositor::new(area);
    compositor.push(layer("editor", LayoutRole::Fill));
    let mut docked = layer("assistant", LayoutRole::Docked);
    docked.panel_id = Some(7);
    compositor.push(docked);
    compositor.push(layer("popup", LayoutRole::Overlay));
    let panels = vec![Panel {
        id: 7,
        side: PanelSide::Right,
        size: PanelSize::Percent(35),
        visible: true,
    }];
    let steps = compositor.render_frame(area, &panels, facts());
    let drawn: Vec<(usize, Rect)> = steps
        .iter()
        .filter_map(|step| match step {
            FrameStep::Draw { layer, area } | FrameStep::Compose { layer, area } => {
                Some((*layer, *area))
            }
            _ => None,
        })
        .collect();
    assert_eq!(
        drawn,
        vec![
            (0, Rect::new(0, 0, 78, 39)),
            (1, Rect::new(78, 0, 42, 40)),
            (2, Rect::new(0, 0, 120, 40)),
        ]
    );
    let areas = compositor.cursor_areas(area, &panels, CmdlineStyle::Bottom, false);
    assert_eq!(areas, drawn.iter().map(|(_, area)| *area).collect::<Vec<_>>());
    assert!(steps.contains(&FrameStep::StatusRow(Rect::new(0, 39, 120, 1))));
    assert!(steps.iter().any(|step| matches!(step, FrameStep::InfoBox(_))));
    assert!(!steps.iter().any(|step| matches!(step, FrameStep::Floats(_))));
    assert!(steps.contains(&FrameStep::PromptActive(false)));
}

#[test]
fn clicks_focus_and_wheels_scroll_the_panel_below() {
    let area = Rect::new(0, 0, 120, 40);
    let mut compositor = Compositor::new(area);
    compositor.push(layer("editor", LayoutRole::Fill));
    let mut docked = layer("assistant", LayoutRole::Docked);
    docked.panel_id = Some(7);
    docked.focusable = true;
    docked.scroll = Some(ScrollState { current: 0, max: 4 });
    compositor.push(docked);
    let panels = vec![Panel {
        id: 7,
        side: PanelSide::Right,
        size: PanelSize::Percent(35),
        visible: true,
    }];
    compositor.render_frame(area, &panels, facts());

    let click = mouse(MouseEventKind::Down(MouseButton::Left), 100, 5);
    assert!(matches!(compositor.route_mouse(&click, None), MouseRoute::Layers));
    assert!(compositor.layers[1].focused);
    let wheel = mouse(MouseEventKind::ScrollDown, 100, 5);
    assert!(matches!(compositor.route_mouse(&wheel, None), MouseRoute::Panel));
    assert_eq!(compositor.layers[1].scroll, Some(ScrollState { current: 3, max: 4 }));
    assert!(matches!(compositor.route_mouse(&wheel, None), MouseRoute::Panel));
    assert_eq!(compositor.layers[1].scroll, Some(ScrollState { current: 4, max: 4 }));
    let up = mouse(MouseEventKind::ScrollUp, 100, 5);
    assert!(compositor.handle_mouse_panel_scroll(&up));
    assert_eq!(compositor.layers[1].scroll, Some(ScrollState { current: 1, max: 4 }));
    let away = mouse(MouseEventKind::Down(MouseButton::Left), 3, 5);
    compositor.route_mouse(&away, None);
    assert!(!compositor.layers[1].focused);

    let info = Some(Rect::new(0, 0, 10, 10));
    let over = mouse(MouseEventKind::ScrollDown, 3, 5);
    assert!(handle_autoinfo_scroll(&over, info).is_some());
    assert!(handle_autoinfo_scroll(&wheel, info).is_none());
    assert!(matches!(compositor.route_mouse(&over, info), MouseRoute::InfoBox(_)));
}

#[test]
fn events_stop_at_the_layer_that_consumes_them() {
    let mut dispatch: Dispatch<u8> = Dispatch::new(3);
    assert_eq!(dispatch.next_layer(), Some(2));
    dispatch.answer(EventResult::Ignored(Some(1)));
    assert_eq!(dispatch.next_layer(), Some(1));
    dispatch.answer(EventResult::Consumed(Some(2)));
    assert_eq!(dispatch.next_layer(), None);
    assert!(dispatch.consumed);
    assert_eq!(dispatch.actions, vec![1, 2]);
}

#[test]
fn typed_characters_need_no_shift() {
    let key = KeyEvent { code: KeyCode::Char('A'), modifiers: SHIFT };
    match canonicalize(Event::Key(key)) {
        Event::Key(key) => assert_eq!(key, KeyEvent { code: KeyCode::Char('A'), modifiers: 0 }),
        other => panic!("{:?}", other),
    }
    let tab = KeyEvent { code: KeyCode::Tab, modifiers: SHIFT };
    match canonicalize(Event::Key(tab)) {
        Event::Key(key) => assert_eq!(key, tab),
        other => panic!("{:?}", other),
    }
}

#[test]
fn letters_with_shift_are_capital_letters() {
    let canonical = |c| {
        let key = KeyEvent { code: KeyCode::Char(c), modifiers: SHIFT };
        match canonicalize(Event::Key(key)) {
            Event::Key(key) => (key.code, key.modifiers),
            other => panic!("{:?}", other),
        }
    };
    assert_eq!(canonical('j'), (KeyCode::Char('J'), 0));
    assert_eq!(canonical('a'), (KeyCode::Char('A'), 0));
    assert_eq!(canonical('z'), (KeyCode::Char('Z'), 0));
    assert_eq!(canonical('{'), (KeyCode::Char('{'), 0));
    let plain = KeyEvent { code: KeyCode::Char('j'), modifiers: 0 };
    match canonicalize(Event::Key(plain)) {
        Event::Key(key) => assert_eq!(key, plain),
        other => panic!("{:?}", other),
    }
}

#[test]
fn layers_of_another_type_are_replaced_by_their_id() {
    let mut compositor = Compositor::new(Rect::new(0, 0, 20, 10));
    compositor.push(layer("editor", LayoutRole::Fill));
    compositor.push(layer("popup", LayoutRole::Overlay));
    compositor.push(layer("prompt", LayoutRole::Overlay));
    let mut menu = layer("popup", LayoutRole::Overlay);
    menu.component_name = "Menu".to_string();
    assert_eq!(compositor.replace_or_push("popup", menu), None);
    assert_eq!(compositor.layer_count(), 3);
    assert_eq!(compositor.layers[1].component_name, "Menu");
    assert_eq!(compositor.find_id("popup"), Some(1));
    assert_eq!(compositor.find_id("editor"), Some(0));
    assert_eq!(compositor.find_id("prompt"), Some(2));
    let other = layer("other", LayoutRole::Overlay);
    assert_eq!(compositor.replace_or_push("other", other), Some((20, 10)));
    assert_eq!(compositor.layer_count(), 4);
    assert_eq!(compositor.find_id("other"), Some(3));
}

#[test]
fn batches_are_applied_in_order_however_deep() {
    let mut macros = MacroState { recording: None, replaying: Vec::new() };
    let mut compositor = Compositor::new(Rect::new(0, 0, 20, 10));
    let push = |id: &str| PostAction::PushLayer(layer(id, LayoutRole::Overlay));
    let batch = PostAction::Batch(vec![
        push("a"),
        PostAction::Batch(vec![push("b"), PostAction::Batch(vec![]), push("c")]),
        PostAction::ClearCompletion,
        PostAction::RemoveById("b".to_string()),
        push("d"),
    ]);
    let (effects, asked) = finish(&mut Run::of(batch), &mut compositor, &mut macros);
    let ids: Vec<_> = compositor.layers.iter().map(|layer| layer.id.clone().unwrap()).collect();
    assert_eq!(ids, vec!["a", "c", "d"]);
    assert_eq!(effects.len(), 6);
    assert!(matches!(effects[0], PostEffect::RequireSize(20, 10)));
    assert!(matches!(effects[3], PostEffect::ClearCompletion));
    assert!(matches!(effects[4], PostEffect::Nothing));
    assert!(asked.is_empty());
}

#[test]
fn replayed_keys_are_events() {
    let key = |c, modifiers| KeyEvent { code: KeyCode::Char(c), modifiers };
    let mut macros = MacroState { recording: Some(Vec::new()), replaying: vec!['q', '@'] };
    let mut compositor = Compositor::new(Rect::new(0, 0, 20, 10));
    compositor.push(layer("editor", LayoutRole::Fill));
    let replay = PostAction::ReplayKeys {
        keys: vec![key('x', 0), key('j', SHIFT)],
        count: 2,
        pop_macro_replaying: true,
    };
    let (effects, asked) = finish(&mut Run::of(replay), &mut compositor, &mut macros);
    assert!(effects.is_empty());
    let (x, j) = ((0, key('x', 0)), (0, key('J', 0)));
    assert_eq!(asked, vec![x, j, x, j]);
    assert_eq!(macros.replaying, vec!['q']);
    assert_eq!(macros.recording, Some(Vec::new()));
}

#[test]
fn events_run_until_nothing_is_left() {
    let mut macros = MacroState { recording: None, replaying: Vec::new() };
    let mut compositor = Compositor::new(Rect::new(0, 0, 20, 10));
    compositor.push(layer("editor", LayoutRole::Fill));
    compositor.push(layer("prompt", LayoutRole::Overlay));
    let (mut run, scroll) = compositor.begin_run(Event::FocusLost, &mut macros, None);
    assert_eq!(scroll, None);
    assert!(matches!(run.step(&mut compositor, &mut macros), RunStep::AskLayer(1)));
    assert!(matches!(run.asked(), Some(Event::FocusLost)));
    let pop = PostAction::PopLayer { model_layer: None, remember_picker: false };
    run.answer(EventResult::Ignored(Some(pop)));
    assert!(matches!(run.step(&mut compositor, &mut macros), RunStep::AskLayer(0)));
    assert_eq!(compositor.layer_count(), 2);
    let count = Count::new(3);
    assert_eq!(count.unwrap().get(), 3);
    assert!(Count::new(0).is_none());
    let palette = PostAction::ShowCommandPalette { register: Some('a'), count };
    run.answer(EventResult::Consumed(Some(palette)));
    assert!(matches!(run.step(&mut compositor, &mut macros), RunStep::GoOn));
    assert_eq!(run.consumed, Some(true));
    assert!(run.asked().is_none());
    let step = run.step(&mut compositor, &mut macros);
    assert!(matches!(step, RunStep::Effect(PostEffect::Nothing)));
    assert_eq!(compositor.layer_count(), 1);
    match run.step(&mut compositor, &mut macros) {
        RunStep::Effect(PostEffect::ShowCommandPalette { register: Some('a'), count }) => {
            assert_eq!(count.unwrap().get(), 3)
        }
        _ => panic!("the palette is shown"),
    }
    assert!(matches!(run.step(&mut compositor, &mut macros), RunStep::Done));
    let wheel = mouse(MouseEventKind::ScrollUp, 1, 1);
    let info = Some(Rect::new(0, 0, 10, 10));
    let (mut run, scroll) = compositor.begin_run(Event::Mouse(wheel), &mut macros, info);
    assert_eq!(scroll, Some(-3));
    assert_eq!(run.consumed, Some(true));
    assert!(matches!(run.step(&mut compositor, &mut macros), RunStep::Done));
}

#[test]
fn layers_are_brought_up_to_date_before_a_frame() {
    let mut compositor = Compositor::new(Rect::new(0, 0, 20, 10));
    assert_eq!(compositor.prepare_frame(), vec![PrepareStep::CleanUpNotifications]);
    compositor.push(layer("editor", LayoutRole::Fill));
    compositor.push(layer("prompt", LayoutRole::Overlay));
    assert_eq!(
        compositor.prepare_frame(),
        vec![PrepareStep::Sync(0), PrepareStep::Sync(1), PrepareStep::CleanUpNotifications]
    );
}

#[test]
fn macros_record_keys_unless_one_is_replayed() {
    let key = KeyEvent { code: KeyCode::Char('x'), modifiers: 0 };
    let mut macros = MacroState { recording: Some(Vec::new()), replaying: Vec::new() };
    macros.note(&Event::Key(key));
    macros.note(&Event::FocusLost);
    assert_eq!(macros.recording, Some(vec![key]));
    macros.replaying.push('@');
    macros.note(&Event::Key(key));
    assert_eq!(macros.recording, Some(vec![key]));
}

#[test]
fn the_front_cursor_is_shown_unless_it_is_covered() {
    let back = (Some(Position { row: 1, col: 2 }), CursorKind::Block);
    let front = (Some(Position { row: 5, col: 6 }), CursorKind::Bar);
    let none = (None, CursorKind::Hidden);
    let mut compositor: Compositor<&'static str> = Compositor::new(Rect::new(0, 0, 80, 24));
    assert_eq!(compositor.cursor(&vec![], None), none);
    compositor.push(layer("editor", LayoutRole::Fill));
    compositor.push(layer("prompt", LayoutRole::Overlay));
    assert_eq!(compositor.cursor(&vec![back, none], None), back);
    assert_eq!(compositor.cursor(&vec![back, front], Some(Rect::new(6, 5, 1, 1))), none);
    compositor.push(layer("popup", LayoutRole::Overlay));
    assert_eq!(compositor.cursor(&vec![back, front, none], None), front);
}

#[test]
fn messages_start_one_cell_in() {
    assert_eq!(
        place_message(Rect::new(0, 39, 120, 1), Severity::Warning),
        Some(MessagePlace { x: 1, y: 39, max_width: 119, style: MessageStyle::Warning })
    );
    assert_eq!(place_message(Rect::new(0, 39, 120, 0), Severity::Error), None);
}

#[test]
fn completions_end_with_the_word() {
    assert_eq!(completion_filter_step(true, false, false), FilterStep::Clear);
    assert_eq!(completion_filter_step(false, true, true), FilterStep::ClearAndTrigger);
    assert_eq!(completion_filter_step(false, true, false), FilterStep::RequestIncomplete);
    assert_eq!(completion_filter_step(false, false, true), FilterStep::RequestIncomplete);
}

#[test]
fn scroll_offsets_are_handed_on() {
    let files: Vec<FileBreakpoints> = Vec::new();
    let snapshot = RenderSnapshot { breakpoints: &files, stack_frame: None };
    let mut context = RenderContext::new(snapshot);
    assert_eq!(context.scroll(), None);
    context.set_scroll(Some(12));
    assert_eq!(context.scroll(), Some(12));
    context.set_scroll(Some(usize::MAX));
    assert_eq!(context.scroll(), None);
    assert_eq!(RenderContext::with_scroll(snapshot, Some(0)).scroll(), Some(0));
}

#[test]
fn stopped_programs_show_their_line() {
    let frame = StackFrame {
        id: 1,
        path: Some("/src/a.rs".to_string()),
        line: 10,
        column: 1,
        end_line: None,
        end_column: None,
    };
    let path = |name: &str| vec!["/".to_string(), "src".to_string(), name.to_string()];
    let (a, b) = (path("a.rs"), path("b.rs"));
    let mut files: Vec<FileBreakpoints> = Vec::new();
    toggle_breakpoint(&mut files, &a, 4);
    let snapshot = RenderSnapshot { breakpoints: &files, stack_frame: Some(&frame) };
    let position = snapshot.debug_execution_position().unwrap();
    assert_eq!(position.line, 9);
    assert_eq!(position.path, Some(&"/src/a.rs".to_string()));
    let context = RenderContext::new(snapshot);
    assert_eq!(context.debug_execution_position().unwrap().line, 9);
    assert_eq!(context.breakpoints_for_document(Some(&a)).unwrap().len(), 1);
    assert!(context.breakpoints_for_document(Some(&b)).is_none());
    assert!(context.breakpoints_for_document(None).is_none());

    let unknown = StackFrame { line: 0, path: None, ..frame };
    let snapshot = RenderSnapshot { breakpoints: &files, stack_frame: Some(&unknown) };
    let position = snapshot.debug_execution_position().unwrap();
    assert_eq!(position.line, 0);
    assert_eq!(position.path, None);
    let running = RenderSnapshot { breakpoints: &files, stack_frame: None };
    assert!(running.debug_execution_position().is_none());
    assert_eq!(running.breakpoints_for_document(Some(&a)).unwrap().len(), 1);
}

#[test]
fn events_enter_in_canonical_form() {
    let mut compositor: Compositor<&'static str> = Compositor::new(Rect::new(0, 0, 80, 24));
    compositor.push(layer("editor", LayoutRole::Fill));
    compositor.push(layer("prompt", LayoutRole::Overlay));
    let mut macros = MacroState { recording: Some(Vec::new()), replaying: Vec::new() };
    let shifted = KeyEvent { code: KeyCode::Char('J'), modifiers: SHIFT };
    let plain = KeyEvent { code: KeyCode::Char('J'), modifiers: 0 };
    let entered: Entered<u8> = compositor.handle_event(Event::Key(shifted), &mut macros, None);
    assert_eq!(macros.recording, Some(vec![plain]));
    match entered {
        Entered::Layers { event: Event::Key(key), mut dispatch } => {
            assert_eq!(key, plain);
            assert_eq!(dispatch.next_layer(), Some(1));
            dispatch.answer(EventResult::Ignored(Some(7)));
            assert_eq!(dispatch.next_layer(), Some(0));
            dispatch.answer(EventResult::Consumed(None));
            assert_eq!(dispatch.next_layer(), None);
            assert!(dispatch.consumed);
            assert_eq!(dispatch.actions, vec![7]);
        }
        _ => panic!("a key is for the layers"),
    }
}

#[test]
fn the_info_box_takes_the_wheel_over_it() {
    let mut compositor: Compositor<&'static str> = Compositor::new(Rect::new(0, 0, 80, 24));
    compositor.push(layer("editor", LayoutRole::Fill));
    let mut macros = MacroState { recording: None, replaying: Vec::new() };
    let wheel = MouseEvent { kind: MouseEventKind::ScrollUp, column: 70, row: 20, modifiers: 0 };
    let box_area = Some(Rect::new(60, 15, 20, 8));
    let entered: Entered<u8> = compositor.handle_event(Event::Mouse(wheel), &mut macros, box_area);
    assert!(matches!(entered, Entered::InfoBox(-3)));
    let entered: Entered<u8> = compositor.handle_event(Event::Mouse(wheel), &mut macros, None);
    assert!(matches!(entered, Entered::Layers { event: Event::Mouse(_), .. }));
}

#[test]
fn a_full_redraw_can_be_asked_for() {
    let mut compositor: Compositor<&'static str> = Compositor::new(Rect::new(0, 0, 80, 24));
    compositor.full_redraw = false;
    compositor.need_full_redraw();
    assert!(compositor.full_redraw);
}
