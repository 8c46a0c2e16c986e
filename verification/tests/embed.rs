use helix_term::compositor::event::Event;
use helix_term::compositor::frame::Severity;
use helix_term::effect::{EditorAction, EditorState, RuntimeTaskEvent, WriteAllOptions};
use helix_term::embed::{
    try_recv, Applied, EmbeddedEditor, PendingStep, RuntimeDelivery, TryRecvError,
};
use helix_term::geometry::Rect;
use helix_term::{
    filter_picker_entry, open_external_url_task_event, true_color, ColorCaps, OpenUrlStep,
};

fn state() -> EditorState {
    EditorState {
        documents: vec![],
        views: vec![],
        inserting: false,
        blame_auto_fetch: false,
        config_generation: 0,
        assets_generation: 0,
    }
}

fn status(message: &str) -> RuntimeDelivery<&'static str> {
    RuntimeDelivery::Status { message: message.to_string(), severity: Severity::Info }
}

#[test]
fn embedded_editor_applies_runtime_status_delivery() {
    let mut embedded: EmbeddedEditor<()> = EmbeddedEditor::new(Rect::new(0, 0, 40, 12));
    assert!(!embedded.redraw_pending);
    assert!(matches!(embedded.apply_delivery(&state(), status("ready")), Applied::Nothing));
    let (message, _) = embedded.status_msg.as_ref().unwrap();
    assert_eq!(message, "ready");
    assert!(embedded.redraw_pending);
}

#[test]
fn embedded_editor_applies_pending_runtime_deliveries() {
    let mut embedded: EmbeddedEditor<()> = EmbeddedEditor::new(Rect::new(0, 0, 40, 12));
    let mut queue = vec![status("first"), status("second")].into_iter();
    let mut applied = 0;
    loop {
        let received = queue.next().ok_or(TryRecvError::Empty);
        match embedded.try_apply_next_delivery(&state(), received).unwrap() {
            Some(_) => applied += 1,
            None => break,
        }
    }
    assert_eq!(applied, 2);
    let (message, _) = embedded.status_msg.as_ref().unwrap();
    assert_eq!(message, "second");
}

#[test]
fn embedded_editor_resize_updates_compositor_and_frame_area() {
    let area = Rect::new(0, 0, 40, 12);
    let next_area = Rect::new(0, 0, 50, 14);
    let mut embedded: EmbeddedEditor<()> = EmbeddedEditor::new(area);
    assert!(matches!(embedded.resize(next_area), Event::Resize(50, 14)));
    assert!(embedded.render_frame(next_area).is_none());
    assert_eq!(embedded.compositor.size(), next_area);
    assert!(matches!(embedded.render_frame(area), Some(Event::Resize(40, 12))));
    assert_eq!(embedded.compositor.size(), area);
}

#[test]
fn waiting_deliveries_are_counted() {
    let mut embedded: EmbeddedEditor<()> = EmbeddedEditor::new(Rect::new(0, 0, 40, 12));
    let mut applied = 0;
    for id in 0..3 {
        let received = Ok(RuntimeDelivery::<&str>::Timer(id));
        let step = embedded.try_apply_pending_deliveries(&mut applied, &state(), received);
        assert!(matches!(step, PendingStep::Applied(Applied::Nothing)));
    }
    assert!(embedded.redraw_pending);
    let empty: Result<RuntimeDelivery<&str>, TryRecvError> = Err(TryRecvError::Empty);
    let step = embedded.try_apply_pending_deliveries(&mut applied, &state(), empty);
    assert!(matches!(step, PendingStep::Over(Ok(3))));
    let closed: Result<RuntimeDelivery<&str>, TryRecvError> = Err(TryRecvError::Closed);
    let step = embedded.try_apply_pending_deliveries(&mut applied, &state(), closed);
    assert!(matches!(step, PendingStep::Over(Err(TryRecvError::Closed))));
}

#[test]
fn deliveries_for_others_are_handed_on() {
    let mut embedded: EmbeddedEditor<()> = EmbeddedEditor::new(Rect::new(0, 0, 40, 12));
    let task = RuntimeDelivery::Task(RuntimeTaskEvent::<&str>::AutoSaveRun);
    match embedded.apply_delivery(&state(), task) {
        Applied::Task(actions) => {
            assert!(matches!(
                actions[..],
                [
                    EditorAction::AutoSave(WriteAllOptions {
                        safe: true,
                        write_scratch: false,
                        auto_format: false
                    }),
                    EditorAction::DeferAutoSave(false)
                ]
            ))
        }
        other => panic!("{:?}", other),
    }
    assert!(!embedded.redraw_pending);
    let command: Applied<&str> = embedded.apply_delivery(&state(), RuntimeDelivery::Ui("open"));
    assert!(matches!(command, Applied::Ui("open")));
    let closed: Result<RuntimeDelivery<&str>, TryRecvError> = Err(TryRecvError::Closed);
    assert_eq!(
        embedded.try_apply_next_delivery(&state(), closed).unwrap_err(),
        TryRecvError::Closed
    );
    assert_eq!(try_recv(Ok(3)), Ok(Some(3)));
    assert_eq!(try_recv::<u8>(Err(TryRecvError::Empty)), Ok(None));
    assert_eq!(try_recv::<u8>(Err(TryRecvError::Closed)), Err(TryRecvError::Closed));
}

#[test]
fn terminals_say_whether_they_show_all_colors() {
    let caps = |rgb, tc, setrgbf, setrgbb| Some(ColorCaps { rgb, tc, setrgbf, setrgbb });
    assert!(true_color(Some("truecolor"), false, None));
    assert!(true_color(Some("24bit"), false, None));
    assert!(!true_color(Some("8bit"), false, None));
    assert!(true_color(None, true, None));
    assert!(true_color(None, false, caps(true, false, false, false)));
    assert!(true_color(None, false, caps(false, true, false, false)));
    assert!(true_color(None, false, caps(false, false, true, true)));
    assert!(!true_color(None, false, caps(false, false, true, false)));
}

fn path(text: &str) -> Vec<String> {
    text.split('/').map(|part| part.to_string()).collect()
}

#[test]
fn pickers_leave_version_control_out() {
    let root = path("home/w");
    assert!(!filter_picker_entry(Some(".git"), false, &None, &root, true));
    assert!(!filter_picker_entry(Some(".jj"), false, &None, &root, false));
    assert!(filter_picker_entry(Some(".github"), false, &None, &root, true));
    let inside = Some(path("home/w/src"));
    let outside = Some(path("home/other"));
    assert!(!filter_picker_entry(Some("link"), true, &inside, &root, true));
    assert!(filter_picker_entry(Some("link"), true, &outside, &root, true));
    assert!(!filter_picker_entry(Some("link"), true, &None, &root, true));
    assert!(filter_picker_entry(Some("link"), true, &inside, &root, false));
}

#[test]
fn addresses_are_opened_by_the_first_command_that_runs() {
    let step = |tried, last| -> OpenUrlStep<u8> { open_external_url_task_event(2, tried, last) };
    assert!(matches!(step(0, false), OpenUrlStep::Run(0)));
    assert!(matches!(step(1, false), OpenUrlStep::Run(1)));
    assert!(matches!(step(1, true), OpenUrlStep::Done(RuntimeTaskEvent::Stub)));
    match step(2, false) {
        OpenUrlStep::Done(RuntimeTaskEvent::SetEditorError { message }) => {
            assert_eq!(message, "Opening URL in external program failed")
        }
        other => panic!("{:?}", other),
    }
}
