//! Reading documents again that have changed on disk.

use vstd::prelude::*;

use crate::collections;
use crate::collections::insert_all_ascending;

verus! {

/// What has to do with reading documents again.
#[derive(Debug)]
pub enum AutoReloadEvent {
    DocumentsChanged { doc_ids: Vec<u64> },
    LeftInsertMode,
}

/// An event names this document.
pub open spec fn named(events: Seq<AutoReloadEvent>, id: u64) -> bool {
    exists|i: int|
        0 <= i < events.len() && (#[trigger] events[i] matches AutoReloadEvent::DocumentsChanged {
            doc_ids,
        } && doc_ids@.contains(id))
}

pub open spec fn left_insert_mode(events: Seq<AutoReloadEvent>) -> bool {
    exists|i: int| 0 <= i < events.len() && #[trigger] events[i] is LeftInsertMode
}

/// Puts the events that have come in together. What is asked for are all documents that were
/// named, each once, also if it is none but typing is over: documents may have been left for
/// that.
pub fn batch(events: &Vec<AutoReloadEvent>) -> (r: Option<Vec<u64>>)
    ensures
        match r {
            Some(ids) => {
                &&& collections::ascending(ids@)
                &&& forall|id: u64| #[trigger] ids@.contains(id) <==> named(events@, id)
                &&& ids@.len() > 0 || left_insert_mode(events@)
            },
            None => (forall|id: u64| !named(events@, id)) && !left_insert_mode(events@),
        },
{
    let mut ids: Vec<u64> = Vec::new();
    let mut left = false;
    let mut i: usize = 0;
    while i < events.len()
        invariant
            i <= events@.len(),
            collections::ascending(ids@),
            forall|id: u64| #[trigger] ids@.contains(id) <==> named(events@.take(i as int), id),
            left == left_insert_mode(events@.take(i as int)),
        decreases events@.len() - i,
    {
        let ghost before = ids@;
        let ghost shorter = events@.take(i as int);
        let ghost longer = events@.take(i + 1);
        match &events[i] {
            AutoReloadEvent::DocumentsChanged { doc_ids } => {
                insert_all_ascending(&mut ids, doc_ids);
                proof {
                    assert forall|id: u64| #[trigger] ids@.contains(id) <==> named(longer, id) by {
                        assert(before.contains(id) <==> named(shorter, id));
                        if named(shorter, id) {
                            let k = choose|k: int|
                                0 <= k < shorter.len() && (#[trigger] shorter[k] matches
                                    AutoReloadEvent::DocumentsChanged { doc_ids }
                                    && doc_ids@.contains(id));
                            assert(longer[k] == shorter[k]);
                        }
                        if doc_ids@.contains(id) {
                            assert(longer[i as int] == events@[i as int]);
                        }
                        if named(longer, id) {
                            let k = choose|k: int|
                                0 <= k < longer.len() && (#[trigger] longer[k] matches
                                    AutoReloadEvent::DocumentsChanged { doc_ids }
                                    && doc_ids@.contains(id));
                            if k < i {
                                assert(shorter[k] == longer[k]);
                            }
                        }
                    }
                    assert(left_insert_mode(longer) == left_insert_mode(shorter)) by {
                        if left_insert_mode(shorter) {
                            let k = choose|k: int|
                                0 <= k < shorter.len() && #[trigger] shorter[k] is LeftInsertMode;
                            assert(longer[k] == shorter[k]);
                        }
                        if left_insert_mode(longer) {
                            let k = choose|k: int|
                                0 <= k < longer.len() && #[trigger] longer[k] is LeftInsertMode;
                            assert(longer[k] == events@[k]);
                            assert(shorter[k] == longer[k]);
                        }
                    }
                }
            },
            AutoReloadEvent::LeftInsertMode => {
                left = true;
                proof {
                    assert(longer[i as int] is LeftInsertMode);
                    assert forall|id: u64| #[trigger] ids@.contains(id) <==> named(longer, id) by {
                        assert(before.contains(id) <==> named(shorter, id));
                        if named(shorter, id) {
                            let k = choose|k: int|
                                0 <= k < shorter.len() && (#[trigger] shorter[k] matches
                                    AutoReloadEvent::DocumentsChanged { doc_ids }
                                    && doc_ids@.contains(id));
                            assert(longer[k] == shorter[k]);
                        }
                        if named(longer, id) {
                            let k = choose|k: int|
                                0 <= k < longer.len() && (#[trigger] longer[k] matches
                                    AutoReloadEvent::DocumentsChanged { doc_ids }
                                    && doc_ids@.contains(id));
                            assert(shorter[k] == longer[k]);
                        }
                    }
                }
            },
        }
        i += 1;
    }
    assert(events@.take(i as int) =~= events@);
    if ids.len() > 0 || left {
        proof {
            if ids@.len() > 0 {
                assert(ids@.contains(ids@[0]));
            }
        }
        Some(ids)
    } else {
        proof {
            assert forall|id: u64| !named(events@, id) by {
                assert(!ids@.contains(id));
            }
        }
        None
    }
}

/// Whether files are watched at all.
pub fn setup_file_watcher(auto_reload: bool, watcher_starts: bool) -> (r: bool)
    ensures
        r == (auto_reload && watcher_starts),
{
    auto_reload && watcher_starts
}

/// Whether the file of a document is watched while the document is open.
pub fn should_watch(watching: bool, document_is_file: bool) -> (r: bool)
    ensures
        r == (watching && document_is_file),
{
    watching && document_is_file
}

/// Documents count as named from the event on that names them, and typing as over from the event
/// on that says so.
pub proof fn law_events_add_up(events: Seq<AutoReloadEvent>, doc_ids: Vec<u64>, id: u64)
    ensures
        !named(Seq::<AutoReloadEvent>::empty(), id),
        !left_insert_mode(Seq::<AutoReloadEvent>::empty()),
        named(events.push(AutoReloadEvent::DocumentsChanged { doc_ids }), id) <==> named(events, id)
            || doc_ids@.contains(id),
        named(events.push(AutoReloadEvent::LeftInsertMode), id) <==> named(events, id),
        left_insert_mode(events.push(AutoReloadEvent::LeftInsertMode)),
        left_insert_mode(events.push(AutoReloadEvent::DocumentsChanged { doc_ids }))
            <==> left_insert_mode(events),
{
    let changed = events.push(AutoReloadEvent::DocumentsChanged { doc_ids });
    let left = events.push(AutoReloadEvent::LeftInsertMode);
    let n = events.len() as int;
    assert(changed[n] == (AutoReloadEvent::DocumentsChanged { doc_ids }));
    assert(left[n] == AutoReloadEvent::LeftInsertMode);
    assert forall|i: int| 0 <= i < n implies #[trigger] events[i] == changed[i] && events[i]
        == left[i] by {}
    assert forall|i: int| 0 <= i < n implies #[trigger] changed[i] == events[i] by {}
    assert forall|i: int| 0 <= i < n implies #[trigger] left[i] == events[i] by {}
}

} // verus!
