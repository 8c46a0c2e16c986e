use helix_term::handlers::diagnostics::{
    retry_delay, should_retry, PendingPullDiagnostics, PullDiagnosticsCoordinator,
    PullDiagnosticsEvent, PullDiagnosticsPriority, PullDiagnosticsRequestOutcome,
    PullDiagnosticsTarget, RequestError, DOCUMENT_DEBOUNCE, INTER_FILE_SWEEP_DEBOUNCE, RETRY_LIMIT,
    SERVER_CANCELLED,
};

type Events = Vec<PullDiagnosticsEvent<()>>;

const SERVER: u64 = 0;

fn target(document_id: u64, generation: u64) -> PullDiagnosticsTarget {
    PullDiagnosticsTarget {
        server_id: SERVER,
        document_id,
        generation,
        version: generation as i32,
        uri: format!("diagnostic-test-{}", document_id),
        priority: PullDiagnosticsPriority::Interactive,
    }
}

fn server_cancelled_without_data() -> PullDiagnosticsRequestOutcome<()> {
    PullDiagnosticsRequestOutcome::Failed(RequestError::Rpc {
        code: SERVER_CANCELLED,
        retrigger: None,
    })
}

fn start_targets(events: &Events) -> Vec<(u64, u64)> {
    events
        .iter()
        .filter_map(|event| match event {
            PullDiagnosticsEvent::StartPullDiagnostics { target } => {
                Some((target.document_id, target.generation))
            }
            _ => None,
        })
        .collect()
}

#[test]
fn paused_clock_coalesces_document_and_inter_file_deadlines() {
    let mut coordinator = PullDiagnosticsCoordinator::new();
    let mut pending: PendingPullDiagnostics<()> = PendingPullDiagnostics::new();
    for index in 0..100 {
        pending.debounce_document(index % 11 + 1);
        pending.debounce_inter_file_sweep(&vec![SERVER]);
    }
    let now = 5000;
    assert!(coordinator.apply_pending(pending.take(), now).is_empty());
    assert_eq!(coordinator.next_deadline(), Some(now + DOCUMENT_DEBOUNCE));

    let events: Events = coordinator.handle_deadlines(now + DOCUMENT_DEBOUNCE - 1);
    assert!(events.is_empty());

    let events: Events = coordinator.handle_deadlines(now + DOCUMENT_DEBOUNCE);
    assert_eq!(events.len(), 1);
    match &events[0] {
        PullDiagnosticsEvent::QueuePullDiagnosticsForDocuments { document_ids } => {
            assert_eq!(document_ids.len(), 11)
        }
        _ => panic!("expected document debounce event"),
    }
    let events: Events = coordinator.handle_deadlines(now + INTER_FILE_SWEEP_DEBOUNCE - 1);
    assert!(events.is_empty());

    let events: Events = coordinator.handle_deadlines(now + INTER_FILE_SWEEP_DEBOUNCE);
    assert_eq!(events.len(), 1);
    match &events[0] {
        PullDiagnosticsEvent::QueuePullDiagnosticsInterFileSweep { language_servers } => {
            assert_eq!(language_servers, &vec![SERVER])
        }
        _ => panic!("expected inter-file sweep event"),
    }
    assert_eq!(coordinator.next_deadline(), None);
}

#[test]
fn refresh_and_retrigger_keep_unique_queue_and_one_trailing_target() {
    let now = 0;
    let mut coordinator = PullDiagnosticsCoordinator::new();
    let documents: Vec<u64> = (1..=11).collect();
    let events: Events =
        coordinator.schedule_targets(documents.iter().map(|doc| target(*doc, 1)).collect(), now);
    assert_eq!(start_targets(&events).len(), 1);
    let (document, generation) = start_targets(&events)[0];
    let in_flight = target(document, generation);

    let mut generations = [1u64; 11];
    for index in 0..100 {
        let document_index = index % documents.len();
        generations[document_index] += 1;
        let events: Events = coordinator.schedule_targets(
            vec![target(documents[document_index], generations[document_index])],
            now,
        );
        assert!(start_targets(&events).is_empty());
    }

    let server = coordinator.servers.get(SERVER).expect("server state");
    assert!(server.in_flight.as_ref().unwrap().same(&in_flight));
    assert_eq!(server.queue.len(), 10);
    assert_eq!(server.queued.len(), 10);
    assert_eq!(server.trailing.as_ref().map(PullDiagnosticsTarget::key), Some(in_flight.key()));

    let events = coordinator.finish_request(in_flight.copy(), server_cancelled_without_data(), now);
    assert_eq!(start_targets(&events).len(), 1);
    let server = coordinator.servers.get(SERVER).expect("server state");
    assert!(server.in_flight.is_some());
    assert!(server.trailing.is_none());
    assert_eq!(server.queue.len(), 10);
    assert_eq!(server.queued.len(), 10);
    let state = coordinator.keys.get(in_flight.key()).unwrap();
    assert_eq!(state.retry_deadline, None);
    assert_eq!(state.retry_attempt, 0);
}

#[test]
fn superseding_an_in_flight_request_cancels_it_and_starts_latest_without_retry() {
    let now = 0;
    let mut coordinator = PullDiagnosticsCoordinator::new();
    let first = target(1, 1);
    let events: Events = coordinator.schedule_targets(vec![first.copy()], now);
    assert_eq!(start_targets(&events), vec![(1, 1)]);
    assert!(coordinator.take_cancellations().is_empty());

    let events: Events = coordinator.schedule_targets(vec![target(1, 2)], now);
    assert!(events.is_empty());
    let cancelled = coordinator.take_cancellations();
    assert_eq!(cancelled.len(), 1);
    assert!(cancelled[0].same(&first));

    let events = coordinator.finish_request(first.copy(), server_cancelled_without_data(), now);
    assert_eq!(start_targets(&events), vec![(1, 2)]);
    let state = coordinator.keys.get(first.key()).unwrap();
    assert_eq!(state.retry_attempt, 0);
    assert!(state.retry_deadline.is_none());
}

#[test]
fn interactive_target_is_promoted_ahead_of_background_sweep() {
    let now = 0;
    let mut coordinator = PullDiagnosticsCoordinator::new();
    let in_flight = target(1, 1);
    let _: Events = coordinator.schedule_targets(vec![in_flight.copy()], now);

    let mut background_a = target(2, 1);
    background_a.priority = PullDiagnosticsPriority::Background;
    let mut background_b = target(3, 1);
    background_b.priority = PullDiagnosticsPriority::Background;
    let interactive = target(4, 1);
    let _: Events =
        coordinator.schedule_targets(vec![background_a, background_b, interactive], now);

    let events: Events =
        coordinator.finish_request(in_flight, PullDiagnosticsRequestOutcome::Abandoned, now);
    assert_eq!(start_targets(&events), vec![(4, 1)]);
}

#[test]
fn sender_coalesces_latest_schedule_and_debounce_intents() {
    let mut inbox: PendingPullDiagnostics<()> = PendingPullDiagnostics::new();
    let doc = 1;
    for generation in 1..=1_000 {
        inbox.schedule(vec![target(doc, generation)]);
        inbox.debounce_document(doc);
        inbox.debounce_inter_file_sweep(&vec![SERVER]);
    }

    let pending = inbox.take();
    assert_eq!(pending.schedules.len(), 1);
    assert_eq!(pending.schedules.values[0].generation, 1_000);
    assert_eq!(pending.documents, vec![doc]);
    assert_eq!(pending.inter_file_servers, vec![SERVER]);
    assert_eq!(inbox.take().schedules.len(), 0);
}

#[test]
fn server_cancelled_without_data_retries_with_bounded_backoff() {
    let mut now = 0;
    let mut coordinator = PullDiagnosticsCoordinator::new();
    let target = target(1, 1);
    let mut events: Events = coordinator.schedule_targets(vec![target.copy()], now);
    assert_eq!(start_targets(&events), vec![(1, 1)]);

    for attempt in 1..=RETRY_LIMIT {
        events = coordinator.finish_request(target.copy(), server_cancelled_without_data(), now);
        assert!(start_targets(&events).is_empty());
        let deadline = now + retry_delay(attempt);
        assert_eq!(coordinator.keys.get(target.key()).unwrap().retry_deadline, Some(deadline));

        now = deadline;
        events = coordinator.handle_deadlines(now);
        assert_eq!(start_targets(&events), vec![(1, 1)]);
    }

    events = coordinator.finish_request(target.copy(), server_cancelled_without_data(), now);
    assert!(start_targets(&events).is_empty());
    let state = coordinator.keys.get(target.key()).unwrap();
    assert!(state.retry_deadline.is_none());
    assert_eq!(state.retry_attempt, RETRY_LIMIT + 1);
}

#[test]
fn timeout_and_transport_loss_are_retryable() {
    assert!(should_retry(&RequestError::Timeout));
    assert!(should_retry(&RequestError::StreamClosed));
    assert!(should_retry(&RequestError::Io));

    let explicit_no_retrigger =
        RequestError::Rpc { code: SERVER_CANCELLED, retrigger: Some(false) };
    assert!(!should_retry(&explicit_no_retrigger));
    assert!(!should_retry(&RequestError::Rpc { code: -32601, retrigger: None }));
    assert!(!should_retry(&RequestError::Parse));
}

#[test]
fn server_exit_clears_in_flight_queue_retry_and_sweep_state() {
    let now = 0;
    let mut coordinator = PullDiagnosticsCoordinator::new();
    coordinator.debounce_inter_file_sweep(&vec![SERVER], now);
    let events: Events = coordinator.schedule_targets(vec![target(1, 1), target(2, 1)], now);
    let (document, generation) = start_targets(&events)[0];
    coordinator.finish_request(target(document, generation), server_cancelled_without_data(), now);

    coordinator.clear_server(SERVER);

    assert!(!coordinator.servers.contains_key(SERVER));
    assert!(coordinator.keys.keys.iter().all(|key| key.server_id != SERVER));
    assert!(!coordinator.inter_file_servers.contains(&SERVER));
    assert!(coordinator.inter_file_deadline.is_none());
}

#[test]
fn backoff_doubles_up_to_its_limit() {
    let delays: Vec<u64> = (1..=6).map(retry_delay).collect();
    assert_eq!(delays, vec![250, 500, 1000, 2000, 4000, 4000]);
    assert_eq!(retry_delay(0), 250);
    assert_eq!(retry_delay(255), 4000);
}

#[test]
fn late_answers_to_older_questions_are_ignored() {
    let now = 0;
    let mut coordinator = PullDiagnosticsCoordinator::new();
    let _: Events = coordinator.schedule_targets(vec![target(1, 5)], now);
    let events: Events = coordinator.schedule_targets(vec![target(1, 4)], now);
    assert!(events.is_empty());
    let events = coordinator.finish_request(
        target(1, 4),
        PullDiagnosticsRequestOutcome::Response(()),
        now,
    );
    assert!(events.is_empty());
    let events = coordinator.finish_request(
        target(1, 5),
        PullDiagnosticsRequestOutcome::Response(()),
        now,
    );
    assert!(matches!(events[0], PullDiagnosticsEvent::PullDiagnosticsResponse { .. }));
}

#[test]
fn an_exited_server_is_forgotten() {
    let mut coordinator = PullDiagnosticsCoordinator::new();
    let mut pending: PendingPullDiagnostics<()> = PendingPullDiagnostics::new();
    pending.schedule(vec![target(1, 1)]);
    assert_eq!(coordinator.apply_pending(pending.take(), 0).len(), 1);
    pending.server_exited(SERVER);
    assert_eq!(pending.exited_servers, vec![SERVER]);
    assert!(coordinator.apply_pending(pending.take(), 1).is_empty());
    let cancelled = coordinator.take_cancellations();
    assert_eq!(cancelled.len(), 1);
    assert_eq!(cancelled[0].document_id, 1);
    let late: Events =
        coordinator.finish_request(target(1, 1), PullDiagnosticsRequestOutcome::Response(()), 2);
    assert!(late.is_empty());
}
