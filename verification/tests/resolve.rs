use helix_term::handlers::completion::resolve::LatestRequest;

#[test]
fn resolve_inbox_keeps_only_the_latest_request() {
    let mut inbox = LatestRequest::default();
    inbox.replace(1);
    inbox.replace(2);
    assert_eq!(inbox.take(), (false, Some(2)));
    assert_eq!(inbox.take(), (false, None));
}

#[test]
fn cancellation_clears_pending_resolve() {
    let mut inbox = LatestRequest::default();
    inbox.replace(1);
    inbox.cancel();
    assert_eq!(inbox.take(), (true, None));
}
