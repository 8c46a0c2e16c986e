//! Asking for the colors of documents a while after they have changed.

use vstd::prelude::*;

use crate::collections;
use crate::collections::insert_id;
use crate::handlers::debounce;
use crate::handlers::debounce::{deadline_after, due};

verus! {

/// How long changes rest, in milliseconds.
pub const DOCUMENT_CHANGE_DEBOUNCE: u64 = 250;

#[derive(Debug)]
pub struct DocumentColorsHandler {
    /// The documents that have changed, each once.
    pub docs: Vec<u64>,
    pub deadline: Option<u64>,
}

impl DocumentColorsHandler {
    pub fn new() -> (r: DocumentColorsHandler)
        ensures
            r.docs@.len() == 0,
            r.deadline is None,
    {
        DocumentColorsHandler { docs: Vec::new(), deadline: None }
    }

    /// A document has changed; the rest begins anew.
    pub fn event(&mut self, doc_id: u64, now: u64)
        ensures
            final(self).docs@ == collections::inserted(old(self).docs@, doc_id),
            final(self).deadline == Some(debounce::later(now, DOCUMENT_CHANGE_DEBOUNCE)),
    {
        let _ = insert_id(&mut self.docs, doc_id);
        self.deadline = Some(deadline_after(now, DOCUMENT_CHANGE_DEBOUNCE));
    }

    /// Once the rest is over, the documents to ask about; none if there are none.
    pub fn tick(&mut self, now: u64) -> (r: Option<Vec<u64>>)
        ensures
            if debounce::is_due(old(self).deadline, now) {
                &&& final(self).deadline is None
                &&& final(self).docs@.len() == 0
                &&& match r {
                    Some(docs) => docs@ == old(self).docs@ && docs@.len() > 0,
                    None => old(self).docs@.len() == 0,
                }
            } else {
                *final(self) == *old(self) && r is None
            },
    {
        if !due(self.deadline, now) {
            return None;
        }
        self.deadline = None;
        let mut docs: Vec<u64> = Vec::new();
        std::mem::swap(&mut docs, &mut self.docs);
        if docs.len() > 0 {
            Some(docs)
        } else {
            None
        }
    }
}

/// Whether a change makes the colors be asked for anew. A change that is only tried out does
/// not: the servers do not know of it.
pub fn refreshes_colors(ghost_transaction: bool) -> (r: bool)
    ensures
        r == !ghost_transaction,
{
    !ghost_transaction
}

/// The documents of a server.
pub open spec fn served_by(documents: Seq<(u64, bool)>) -> Seq<u64>
    decreases documents.len(),
{
    if documents.len() == 0 {
        seq![]
    } else if documents.last().1 {
        served_by(documents.drop_last()).push(documents.last().0)
    } else {
        served_by(documents.drop_last())
    }
}

/// The documents whose colors are cleared and asked for anew when a server exits: those that it
/// served.
pub fn after_server_exit(documents: &Vec<(u64, bool)>) -> (r: Vec<u64>)
    ensures
        r@ == served_by(documents@),
{
    let mut out: Vec<u64> = Vec::new();
    let mut i: usize = 0;
    assert(documents@.take(0) =~= seq![]);
    while i < documents.len()
        invariant
            i <= documents@.len(),
            out@ == served_by(documents@.take(i as int)),
        decreases documents@.len() - i,
    {
        assert(documents@.take(i + 1).drop_last() =~= documents@.take(i as int));
        if documents[i].1 {
            out.push(documents[i].0);
        }
        i += 1;
    }
    assert(documents@.take(i as int) =~= documents@);
    out
}

/// Documents that the server took care of are dealt with, in order, and no others.
pub proof fn law_documents_of_the_server_are_dealt_with(documents: Seq<(u64, bool)>, doc: u64)
    ensures
        served_by(Seq::<(u64, bool)>::empty()).len() == 0,
        served_by(documents.push((doc, true))) == served_by(documents).push(doc),
        served_by(documents.push((doc, false))) == served_by(documents),
{
    assert(documents.push((doc, true)).drop_last() =~= documents);
    assert(documents.push((doc, false)).drop_last() =~= documents);
}

} // verus!
