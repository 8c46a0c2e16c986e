//! Asking language servers anew about documents a while after they have changed.

use vstd::prelude::*;

use crate::collections;
use crate::collections::insert_id;
use crate::effect::{LspFeatureRefreshEvent, LspFeatureRefreshKind};
use crate::handlers::debounce;
use crate::handlers::debounce::{deadline_after, due};

verus! {

/// How long changes rest, in milliseconds.
pub const DOCUMENT_CHANGE_DEBOUNCE: u64 = 250;

#[derive(Debug)]
pub struct LspFeatureRefreshHandler {
    /// What of which documents is asked for anew, each once.
    pub docs: Vec<LspFeatureRefreshEvent>,
    pub deadline: Option<u64>,
}

impl LspFeatureRefreshHandler {
    pub fn new() -> (r: LspFeatureRefreshHandler)
        ensures
            r.docs@.len() == 0,
            r.deadline is None,
    {
        LspFeatureRefreshHandler { docs: Vec::new(), deadline: None }
    }

    /// Something of a document is to be asked for anew; the rest begins anew.
    pub fn event(&mut self, event: LspFeatureRefreshEvent, now: u64)
        ensures
            final(self).docs@ == collections::inserted(old(self).docs@, event),
            final(self).deadline == Some(debounce::later(now, DOCUMENT_CHANGE_DEBOUNCE)),
    {
        let _ = insert_id(&mut self.docs, event);
        self.deadline = Some(deadline_after(now, DOCUMENT_CHANGE_DEBOUNCE));
    }

    /// Once the rest is over, what is asked for; nothing if there is nothing.
    pub fn tick(&mut self, now: u64) -> (r: Option<Vec<LspFeatureRefreshEvent>>)
        ensures
            if debounce::is_due(old(self).deadline, now) {
                &&& final(self).deadline is None
                &&& final(self).docs@.len() == 0
                &&& match r {
                    Some(docs) => docs@ == old(self).docs@ && docs@.len() > 0,
                    None => old(self).docs@.len() == 0,
                }
            } else {
                *final(self) == *old(self) && r is None
            },
    {
        if !due(self.deadline, now) {
            return None;
        }
        self.deadline = None;
        let mut docs: Vec<LspFeatureRefreshEvent> = Vec::new();
        std::mem::swap(&mut docs, &mut self.docs);
        if docs.len() > 0 {
            Some(docs)
        } else {
            None
        }
    }
}

/// What is asked for anew when a document changes, for good or only tried out.
pub open spec fn kinds_after_change(ghost_transaction: bool) -> Seq<LspFeatureRefreshKind> {
    if ghost_transaction {
        seq![]
    } else {
        kinds_after_start().push(LspFeatureRefreshKind::InlineCompletion)
    }
}

/// What is asked for when a server has started, or a document was opened.
pub open spec fn kinds_after_start() -> Seq<LspFeatureRefreshKind> {
    seq![
        LspFeatureRefreshKind::CodeLens,
        LspFeatureRefreshKind::DocumentLinks,
        LspFeatureRefreshKind::FoldingRanges,
        LspFeatureRefreshKind::SemanticTokens,
    ]
}

pub fn on_server_initialized() -> (r: Vec<LspFeatureRefreshKind>)
    ensures
        r@ == kinds_after_start(),
{
    let mut kinds: Vec<LspFeatureRefreshKind> = Vec::new();
    kinds.push(LspFeatureRefreshKind::CodeLens);
    kinds.push(LspFeatureRefreshKind::DocumentLinks);
    kinds.push(LspFeatureRefreshKind::FoldingRanges);
    kinds.push(LspFeatureRefreshKind::SemanticTokens);
    assert(kinds@ =~= kinds_after_start());
    kinds
}

/// What is given up and asked for anew when a document changes. Completions at the cursor are
/// asked for only then.
pub fn on_document_change(ghost_transaction: bool) -> (r: Vec<LspFeatureRefreshKind>)
    ensures
        r@ == kinds_after_change(ghost_transaction),
{
    if ghost_transaction {
        return Vec::new();
    }
    let mut kinds = on_server_initialized();
    kinds.push(LspFeatureRefreshKind::InlineCompletion);
    kinds
}

/// Something shown in a document that came from a server.
#[derive(Debug, Clone, Copy, PartialEq, Eq, Structural)]
pub enum Shown {
    CodeLenses,
    DocumentLinks,
    SemanticTokens,
    InlineCompletion,
    /// The annotations that stand for code lenses, which have a scope of their own.
    CodeLensAnnotations,
}

/// The scope of the annotations that stand for code lenses.
pub fn code_lens_scope() -> (r: &'static str)
    ensures
        r@ == "helix-lsp-code-lens"@,
{
    "helix-lsp-code-lens"
}

/// What is taken out of a document when a server of it exits. Folds stay.
pub open spec fn cleared_of(doc: u64) -> Seq<(u64, Shown)> {
    seq![
        (doc, Shown::CodeLenses),
        (doc, Shown::DocumentLinks),
        (doc, Shown::SemanticTokens),
        (doc, Shown::InlineCompletion),
        (doc, Shown::CodeLensAnnotations),
    ]
}

/// What is taken out of which documents: of those that the server served.
pub open spec fn cleared(documents: Seq<(u64, bool)>) -> Seq<(u64, Shown)>
    decreases documents.len(),
{
    if documents.len() == 0 {
        seq![]
    } else if documents.last().1 {
        cleared(documents.drop_last()) + cleared_of(documents.last().0)
    } else {
        cleared(documents.drop_last())
    }
}

/// What is taken out of which documents when a server exits. Of each document it is said whether
/// the server served it.
pub fn on_server_exited(documents: &Vec<(u64, bool)>) -> (r: Vec<(u64, Shown)>)
    ensures
        r@ == cleared(documents@),
{
    let mut out: Vec<(u64, Shown)> = Vec::new();
    let mut i: usize = 0;
    assert(documents@.take(0) =~= seq![]);
    assert(out@ =~= seq![]);
    while i < documents.len()
        invariant
            i <= documents@.len(),
            out@ == cleared(documents@.take(i as int)),
        decreases documents@.len() - i,
    {
        assert(documents@.take(i + 1).drop_last() =~= documents@.take(i as int));
        let (doc, served): (u64, bool) = documents[i];
        if served {
            let ghost before = out@;
            out.push((doc, Shown::CodeLenses));
            out.push((doc, Shown::DocumentLinks));
            out.push((doc, Shown::SemanticTokens));
            out.push((doc, Shown::InlineCompletion));
            out.push((doc, Shown::CodeLensAnnotations));
            assert(out@ =~= before + cleared_of(doc));
        }
        i += 1;
    }
    assert(documents@.take(i as int) =~= documents@);
    out
}

/// Changes that nobody made by hand refresh nothing; others refresh all that a server shows when
/// it has come up, and what it suggests.
pub proof fn law_real_changes_refresh_everything(kind: LspFeatureRefreshKind)
    ensures
        kinds_after_change(true).len() == 0,
        kinds_after_change(false).contains(kind),
        kinds_after_start().contains(kind) <==> kind != LspFeatureRefreshKind::InlineCompletion,
        kinds_after_change(false).no_duplicates(),
{
    let all = kinds_after_change(false);
    let start = kinds_after_start();
    assert(start[0] == LspFeatureRefreshKind::CodeLens);
    assert(start[1] == LspFeatureRefreshKind::DocumentLinks);
    assert(start[2] == LspFeatureRefreshKind::FoldingRanges);
    assert(start[3] == LspFeatureRefreshKind::SemanticTokens);
    assert(all[0] == LspFeatureRefreshKind::CodeLens);
    assert(all[1] == LspFeatureRefreshKind::DocumentLinks);
    assert(all[2] == LspFeatureRefreshKind::FoldingRanges);
    assert(all[3] == LspFeatureRefreshKind::SemanticTokens);
    assert(all[4] == LspFeatureRefreshKind::InlineCompletion);
}

/// When a server has gone, everything that it showed in its documents goes, and nothing of other
/// documents.
pub proof fn law_nothing_of_a_gone_server_is_left(
    documents: Seq<(u64, bool)>,
    doc: u64,
    shown: Shown,
)
    ensures
        cleared(documents).contains((doc, shown)) <==> documents.contains((doc, true)),
    decreases documents.len(),
{
    if documents.len() > 0 {
        let front = documents.drop_last();
        let (last, served) = documents.last();
        law_nothing_of_a_gone_server_is_left(front, doc, shown);
        let before = cleared(front);
        let all = cleared(documents);
        let own = cleared_of(last);
        assert(documents[documents.len() - 1] == (last, served));
        if front.contains((doc, true)) {
            assert(documents[front.index_of((doc, true))] == (doc, true));
            let k = before.index_of((doc, shown));
            assert(all[k] == (doc, shown));
        }
        if documents.contains((doc, true)) && !front.contains((doc, true)) {
            let i = documents.index_of((doc, true));
            if i < front.len() {
                assert(front[i] == (doc, true));
            }
            assert(served && last == doc);
            let k: int = match shown {
                Shown::CodeLenses => 0,
                Shown::DocumentLinks => 1,
                Shown::SemanticTokens => 2,
                Shown::InlineCompletion => 3,
                Shown::CodeLensAnnotations => 4,
            };
            assert(own[k] == (doc, shown));
            assert(all[before.len() + k] == (doc, shown));
        }
        if all.contains((doc, shown)) && !before.contains((doc, shown)) {
            let k = all.index_of((doc, shown));
            if k < before.len() {
                assert(before[k] == (doc, shown));
            }
            assert(served);
            assert(own[k - before.len()] == (doc, shown));
            assert(last == doc);
        }
    }
}

} // verus!
