//! Looking up who wrote the lines of a document, a moment after it was asked for.

use vstd::prelude::*;

use crate::collections::IdMap;
use crate::handlers::debounce;
use crate::handlers::debounce::{deadline_after, due};

verus! {

/// How long requests rest, in milliseconds.
pub const BLAME_DEBOUNCE: u64 = 50;

/// A request to look up a document.
#[derive(Debug)]
pub struct BlameEvent {
    pub path: String,
    pub doc_id: u64,
    /// The line that somebody wants to know about; none if it only keeps things fresh.
    pub line: Option<u32>,
}

/// What waits after a request joins: somebody's question about a line is not displaced by a
/// request that only keeps things fresh.
pub open spec fn merged(pending: Map<u64, BlameEvent>, event: BlameEvent) -> Map<u64, BlameEvent> {
    if pending.dom().contains(event.doc_id) && pending[event.doc_id].line is Some && event.line is None {
        pending
    } else {
        pending.insert(event.doc_id, event)
    }
}

pub fn merge_pending_blame(pending: &mut IdMap<u64, BlameEvent>, event: BlameEvent)
    requires
        old(pending).wf(),
    ensures
        final(pending).wf(),
        final(pending)@ == merged(old(pending)@, event),
{
    let keep = match pending.get(event.doc_id) {
        Some(waiting) => waiting.line.is_some() && event.line.is_none(),
        None => false,
    };
    if !keep {
        pending.insert(event.doc_id, event);
    }
}

/// Whatever follows, a question about a line stays until another question about a line of the
/// same document comes.
pub proof fn law_line_questions_stay(pending: Map<u64, BlameEvent>, event: BlameEvent, doc_id: u64)
    requires
        pending.dom().contains(doc_id),
        pending[doc_id].line is Some,
        event.doc_id != doc_id || event.line is None,
    ensures
        merged(pending, event).dom().contains(doc_id),
        merged(pending, event)[doc_id] == pending[doc_id],
{
}

/// Requests that rest.
#[derive(Debug)]
pub struct BlameHandler {
    pub pending: IdMap<u64, BlameEvent>,
    pub deadline: Option<u64>,
}

impl BlameHandler {
    pub fn new() -> (r: BlameHandler)
        ensures
            r.pending.wf(),
            r.pending@ == Map::<u64, BlameEvent>::empty(),
            r.deadline is None,
    {
        BlameHandler { pending: IdMap::new(), deadline: None }
    }

    /// Takes in a request; the rest begins anew.
    pub fn event(&mut self, event: BlameEvent, now: u64)
        requires
            old(self).pending.wf(),
        ensures
            final(self).pending.wf(),
            final(self).pending@ == merged(old(self).pending@, event),
            final(self).deadline == Some(debounce::later(now, BLAME_DEBOUNCE)),
    {
        merge_pending_blame(&mut self.pending, event);
        self.deadline = Some(deadline_after(now, BLAME_DEBOUNCE));
    }

    /// Once the rest is over, what has come together is handed out, each document once.
    pub fn tick(&mut self, now: u64) -> (r: Vec<BlameEvent>)
        requires
            old(self).pending.wf(),
        ensures
            final(self).pending.wf(),
            if debounce::is_due(old(self).deadline, now) {
                &&& final(self).deadline is None
                &&& final(self).pending@ == Map::<u64, BlameEvent>::empty()
                &&& r@.len() == old(self).pending.order().len()
                &&& forall|i: int|
                    0 <= i < r@.len() ==> #[trigger] r@[i] == old(self).pending@[old(
                        self,
                    ).pending.order()[i]]
            } else {
                *final(self) == *old(self) && r@.len() == 0
            },
    {
        if !due(self.deadline, now) {
            return Vec::new();
        }
        self.deadline = None;
        let mut taken: IdMap<u64, BlameEvent> = IdMap::new();
        std::mem::swap(&mut taken, &mut self.pending);
        taken.into_values()
    }
}

/// What is looked up when a document is opened: it, if that is switched on.
pub fn on_document_open(auto_fetch: bool, doc_id: u64, path: String) -> (r: Option<BlameEvent>)
    ensures
        r == if auto_fetch {
            Some(BlameEvent { path, doc_id, line: None })
        } else {
            None
        },
{
    if auto_fetch {
        Some(BlameEvent { path, doc_id, line: None })
    } else {
        None
    }
}

/// The documents to look up when that is switched on: all that are files.
pub open spec fn files_of(documents: Seq<(u64, Option<String>)>) -> Seq<(u64, String)>
    decreases documents.len(),
{
    if documents.len() == 0 {
        seq![]
    } else {
        match documents.last().1 {
            Some(path) => files_of(documents.drop_last()).push((documents.last().0, path)),
            None => files_of(documents.drop_last()),
        }
    }
}

/// What is looked up when the configuration changes.
pub fn after_config_change(
    was_enabled: bool,
    is_enabled: bool,
    documents: &Vec<(u64, Option<String>)>,
) -> (r: Vec<BlameEvent>)
    ensures
        if !was_enabled && is_enabled {
            let files = files_of(documents@);
            &&& r@.len() == files.len()
            &&& forall|i: int|
                0 <= i < files.len() ==> (#[trigger] r@[i]).doc_id == files[i].0 && r@[i].path
                    == files[i].1 && r@[i].line is None
        } else {
            r@.len() == 0
        },
{
    let mut events: Vec<BlameEvent> = Vec::new();
    if was_enabled || !is_enabled {
        return events;
    }
    let mut i: usize = 0;
    assert(documents@.take(0) =~= seq![]);
    while i < documents.len()
        invariant
            i <= documents@.len(),
            events@.len() == files_of(documents@.take(i as int)).len(),
            forall|j: int|
                0 <= j < events@.len() ==> (#[trigger] events@[j]).doc_id == files_of(
                    documents@.take(i as int),
                )[j].0 && events@[j].path == files_of(documents@.take(i as int))[j].1
                    && events@[j].line is None,
        decreases documents@.len() - i,
    {
        assert(documents@.take(i + 1).drop_last() =~= documents@.take(i as int));
        if let Some(path) = &documents[i].1 {
            events.push(BlameEvent { path: path.clone(), doc_id: documents[i].0, line: None });
        }
        i += 1;
    }
    assert(documents@.take(i as int) =~= documents@);
    events
}

/// Every document with a file is asked about, in order, and no other.
pub proof fn law_documents_with_files_are_asked_about(
    documents: Seq<(u64, Option<String>)>,
    doc: u64,
    path: String,
)
    ensures
        files_of(Seq::<(u64, Option<String>)>::empty()).len() == 0,
        files_of(documents.push((doc, Some(path)))) == files_of(documents).push((doc, path)),
        files_of(documents.push((doc, None))) == files_of(documents),
{
    assert(documents.push((doc, Some(path))).drop_last() =~= documents);
    assert(documents.push((doc, None)).drop_last() =~= documents);
}

/// A request joins what waits, unless it would displace a question about a line; other documents
/// are not concerned.
pub proof fn law_requests_join_what_waits(pending: Map<u64, BlameEvent>, event: BlameEvent, other: u64)
    ensures
        merged(pending, event).dom().contains(event.doc_id),
        event.line is Some || !pending.dom().contains(event.doc_id) || pending[event.doc_id].line
            is None ==> merged(pending, event)[event.doc_id] == event,
        other != event.doc_id ==> merged(pending, event).dom().contains(other)
            == pending.dom().contains(other),
        other != event.doc_id && pending.dom().contains(other) ==> merged(pending, event)[other]
            == pending[other],
{
}

} // verus!
