//! Which servers are asked about a document, and which answers still count.
//!
//! Every feature of a document waits for at most one request. A new request takes the place of
//! the older one, whose answer no longer counts; nor does an answer to another version of the
//! document.

use vstd::prelude::*;

use crate::collections;
use crate::collections::{insert_id, IdMap};
use crate::effect::language_server::annotations::Position;

verus! {

/// What a server is asked about a document.
#[derive(Debug, Clone, Copy, PartialEq, Eq, Structural)]
pub enum Feature {
    DocumentColors,
    CodeLens,
    DocumentLinks,
    SemanticTokens,
    FoldingRange,
    InlineCompletion,
    InlineValues,
}

/// The request that each feature waits for; zero before the first one.
#[derive(Debug, Clone, Copy, PartialEq, Eq, Structural)]
pub struct FeatureRequests {
    pub issued: u64,
    pub color_swatches: u64,
    pub code_lenses: u64,
    pub document_links: u64,
    pub semantic_tokens: u64,
    pub folding_ranges: u64,
    pub inline_completion: u64,
    pub inline_values: u64,
}

impl FeatureRequests {
    /// The request that a feature waits for.
    pub open spec fn current(self, feature: Feature) -> u64 {
        match feature {
            Feature::DocumentColors => self.color_swatches,
            Feature::CodeLens => self.code_lenses,
            Feature::DocumentLinks => self.document_links,
            Feature::SemanticTokens => self.semantic_tokens,
            Feature::FoldingRange => self.folding_ranges,
            Feature::InlineCompletion => self.inline_completion,
            Feature::InlineValues => self.inline_values,
        }
    }

    /// Nothing is waited for that was not issued.
    pub open spec fn wf(self) -> bool {
        forall|feature: Feature| #[trigger] self.current(feature) <= self.issued
    }

    /// The next request takes the feature over.
    pub open spec fn restarted(self, feature: Feature) -> FeatureRequests {
        let next = (self.issued + 1) as u64;
        let issued = FeatureRequests { issued: next, ..self };
        match feature {
            Feature::DocumentColors => FeatureRequests { color_swatches: next, ..issued },
            Feature::CodeLens => FeatureRequests { code_lenses: next, ..issued },
            Feature::DocumentLinks => FeatureRequests { document_links: next, ..issued },
            Feature::SemanticTokens => FeatureRequests { semantic_tokens: next, ..issued },
            Feature::FoldingRange => FeatureRequests { folding_ranges: next, ..issued },
            Feature::InlineCompletion => FeatureRequests { inline_completion: next, ..issued },
            Feature::InlineValues => FeatureRequests { inline_values: next, ..issued },
        }
    }

    pub fn new() -> (r: FeatureRequests)
        ensures
            r.wf(),
            r.issued == 0,
            forall|feature: Feature| #[trigger] r.current(feature) == 0,
    {
        FeatureRequests {
            issued: 0,
            color_swatches: 0,
            code_lenses: 0,
            document_links: 0,
            semantic_tokens: 0,
            folding_ranges: 0,
            inline_completion: 0,
            inline_values: 0,
        }
    }

    /// Issues the next request of a feature.
    pub fn restart(&mut self, feature: Feature) -> (request: u64)
        requires
            old(self).issued < u64::MAX,
        ensures
            *final(self) == old(self).restarted(feature),
            request == final(self).issued,
            request == final(self).current(feature),
    {
        let next: u64 = self.issued + 1;
        self.issued = next;
        match feature {
            Feature::DocumentColors => {
                self.color_swatches = next;
            },
            Feature::CodeLens => {
                self.code_lenses = next;
            },
            Feature::DocumentLinks => {
                self.document_links = next;
            },
            Feature::SemanticTokens => {
                self.semantic_tokens = next;
            },
            Feature::FoldingRange => {
                self.folding_ranges = next;
            },
            Feature::InlineCompletion => {
                self.inline_completion = next;
            },
            Feature::InlineValues => {
                self.inline_values = next;
            },
        }
        next
    }

    /// Whether the feature waits for this request.
    pub fn is_current(&self, feature: Feature, request: u64) -> (r: bool)
        ensures
            r == (self.current(feature) == request),
    {
        match feature {
            Feature::DocumentColors => self.color_swatches == request,
            Feature::CodeLens => self.code_lenses == request,
            Feature::DocumentLinks => self.document_links == request,
            Feature::SemanticTokens => self.semantic_tokens == request,
            Feature::FoldingRange => self.folding_ranges == request,
            Feature::InlineCompletion => self.inline_completion == request,
            Feature::InlineValues => self.inline_values == request,
        }
    }
}

/// A new request makes every earlier one of its feature stale, and leaves the other features
/// alone.
pub proof fn law_a_new_request_supersedes_the_older(
    requests: FeatureRequests,
    feature: Feature,
    older: u64,
    other: Feature,
)
    requires
        requests.wf(),
        requests.issued < u64::MAX,
        older <= requests.issued,
        other != feature,
    ensures
        requests.restarted(feature).wf(),
        requests.restarted(feature).current(feature) != older,
        requests.restarted(feature).current(other) == requests.current(other),
{
    assert forall|f: Feature| #[trigger] requests.restarted(feature).current(f)
        <= requests.restarted(feature).issued by {
        assert(requests.current(f) <= requests.issued);
    }
}

/// A server that is attached to a document, and what it can be asked.
#[derive(Debug, Clone, Copy, PartialEq, Eq, Structural)]
pub struct LspServer {
    pub id: u64,
    pub document_colors: bool,
    pub code_lens: bool,
    pub document_links: bool,
    pub semantic_tokens_full: bool,
    pub semantic_tokens_range: bool,
    pub semantic_tokens_delta: bool,
    pub semantic_tokens_legend: bool,
    pub folding_range: bool,
    pub inline_completion: bool,
    pub inline_values: bool,
    pub pull_diagnostics: bool,
}

impl LspServer {
    pub open spec fn has(self, feature: Feature) -> bool {
        match feature {
            Feature::DocumentColors => self.document_colors,
            Feature::CodeLens => self.code_lens,
            Feature::DocumentLinks => self.document_links,
            Feature::SemanticTokens => self.semantic_tokens_full || self.semantic_tokens_range,
            Feature::FoldingRange => self.folding_range,
            Feature::InlineCompletion => self.inline_completion,
            Feature::InlineValues => self.inline_values,
        }
    }

    pub fn supports(&self, feature: Feature) -> (r: bool)
        ensures
            r == self.has(feature),
    {
        match feature {
            Feature::DocumentColors => self.document_colors,
            Feature::CodeLens => self.code_lens,
            Feature::DocumentLinks => self.document_links,
            Feature::SemanticTokens => self.semantic_tokens_full || self.semantic_tokens_range,
            Feature::FoldingRange => self.folding_range,
            Feature::InlineCompletion => self.inline_completion,
            Feature::InlineValues => self.inline_values,
        }
    }
}

/// A document as far as language servers are concerned.
#[derive(Debug)]
pub struct LspDocument {
    pub version: i32,
    pub requests: FeatureRequests,
    pub servers: Vec<LspServer>,
}

/// The ids of the servers that have the feature, each once.
pub open spec fn supporting(servers: Seq<LspServer>, feature: Feature) -> Seq<u64>
    decreases servers.len(),
{
    if servers.len() == 0 {
        seq![]
    } else {
        let rest = supporting(servers.drop_last(), feature);
        if servers.last().has(feature) {
            collections::inserted(rest, servers.last().id)
        } else {
            rest
        }
    }
}

pub fn servers_with_feature(servers: &Vec<LspServer>, feature: Feature) -> (r: Vec<u64>)
    ensures
        r@ == supporting(servers@, feature),
{
    let mut ids: Vec<u64> = Vec::new();
    let mut i: usize = 0;
    assert(servers@.take(0) =~= seq![]);
    while i < servers.len()
        invariant
            i <= servers@.len(),
            ids@ == supporting(servers@.take(i as int), feature),
        decreases servers@.len() - i,
    {
        assert(servers@.take(i + 1).drop_last() =~= servers@.take(i as int));
        if servers[i].supports(feature) {
            let _ = insert_id(&mut ids, servers[i].id);
        }
        i += 1;
    }
    assert(servers@.take(i as int) =~= servers@);
    ids
}

/// A request about a version of a document, and the servers it goes to.
#[derive(Debug)]
pub struct FeatureRequest {
    pub doc_id: u64,
    pub expected_version: i32,
    pub request: u64,
    pub servers: Vec<u64>,
}

/// A document after a request was made.
pub open spec fn after_restart(document: LspDocument, feature: Feature) -> LspDocument {
    LspDocument { requests: document.requests.restarted(feature), ..document }
}

/// Every server of a document that has the feature is asked, each once, if there is one. Whatever
/// was asked before is given up in either case.
pub open spec fn every_server_asked(
    enabled: bool,
    feature: Feature,
    before: Map<u64, LspDocument>,
    after: Map<u64, LspDocument>,
    doc_id: u64,
    r: Option<FeatureRequest>,
) -> bool {
    if enabled && before.dom().contains(doc_id) {
        let document = before[doc_id];
        let servers = supporting(document.servers@, feature);
        &&& after == before.insert(doc_id, after_restart(document, feature))
        &&& match r {
            Some(request) => {
                &&& servers.len() > 0
                &&& request.doc_id == doc_id
                &&& request.expected_version == document.version
                &&& request.request == document.requests.restarted(feature).current(feature)
                &&& request.servers@ == servers
            },
            None => servers.len() == 0,
        }
    } else {
        r is None && after == before
    }
}

/// Asks every server of a document that has the feature, each once. Whatever was asked before is
/// given up even where nobody can be asked now.
pub fn request_feature(
    enabled: bool,
    feature: Feature,
    documents: &mut IdMap<u64, LspDocument>,
    doc_id: u64,
) -> (r: Option<FeatureRequest>)
    requires
        old(documents).wf(),
        old(documents)@.dom().contains(doc_id) ==> old(documents)@[doc_id].requests.issued
            < u64::MAX,
    ensures
        final(documents).wf(),
        final(documents).order() == old(documents).order(),
        every_server_asked(enabled, feature, old(documents)@, final(documents)@, doc_id, r),
{
    if !enabled {
        return None;
    }
    match documents.get_mut(doc_id) {
        Some(document) => {
            let request = document.requests.restart(feature);
            let servers = servers_with_feature(&document.servers, feature);
            if servers.len() == 0 {
                None
            } else {
                Some(
                    FeatureRequest { doc_id, expected_version: document.version, request, servers },
                )
            }
        },
        None => None,
    }
}

/// Items with the server that gave them.
pub open spec fn tagged<T>(server: u64, items: Seq<T>) -> Seq<(u64, T)> {
    items.map_values(|item: T| (server, item))
}

/// Adds what a server answered to what came before; an answer that failed adds nothing.
pub fn receive<T>(gathered: &mut Vec<(u64, T)>, server: u64, answer: Option<Vec<T>>)
    ensures
        final(gathered)@ == old(gathered)@ + match answer {
            Some(items) => tagged(server, items@),
            None => Seq::<(u64, T)>::empty(),
        },
{
    match answer {
        Some(items) => {
            let ghost before = gathered@;
            let ghost all = items@;
            for item in it: items
                invariant
                    before == old(gathered)@,
                    it.seq() == all,
                    gathered@ == before + tagged(server, all.take(it.index())),
            {
                let ghost shorter = all.take(it.index());
                gathered.push((server, item));
                assert(all.take(it.index() + 1) =~= shorter.push(item));
                assert(tagged(server, all.take(it.index() + 1)) =~= tagged(server, shorter).push(
                    (server, item),
                ));
                assert(gathered@ =~= before + tagged(server, all.take(it.index() + 1)));
            }
            assert(all.take(all.len() as int) =~= all);
        },
        None => {
            assert(gathered@ + Seq::<(u64, T)>::empty() =~= gathered@);
        },
    }
}

/// What the servers answered, one after the other.
pub open spec fn gathered<T>(answers: Seq<(u64, Option<Vec<T>>)>) -> Seq<(u64, T)>
    decreases answers.len(),
{
    if answers.len() == 0 {
        seq![]
    } else {
        let (server, answer) = answers.last();
        gathered(answers.drop_last()) + match answer {
            Some(items) => tagged(server, items@),
            None => seq![],
        }
    }
}

/// Puts together what the servers answered, in the order in which they were asked.
pub fn gather<T>(answers: Vec<(u64, Option<Vec<T>>)>) -> (r: Vec<(u64, T)>)
    ensures
        r@ == gathered(answers@),
{
    let ghost all = answers@;
    let mut items: Vec<(u64, T)> = Vec::new();
    assert(all.take(0) =~= seq![]);
    for answer in it: answers
        invariant
            it.seq() == all,
            items@ == gathered(all.take(it.index())),
    {
        assert(all.take(it.index() + 1).drop_last() =~= all.take(it.index()));
        assert(all.take(it.index() + 1).last() == answer);
        receive(&mut items, answer.0, answer.1);
    }
    assert(all.take(all.len() as int) =~= all);
    items
}

/// The answer is to the request that the feature waits for, about the version at hand.
pub open spec fn counts(
    documents: Map<u64, LspDocument>,
    doc_id: u64,
    version: i32,
    feature: Feature,
    request: u64,
) -> bool {
    &&& documents.dom().contains(doc_id)
    &&& documents[doc_id].version == version
    &&& documents[doc_id].requests.current(feature) == request
}

/// Whether an answer still counts. One to a feature that was switched off meanwhile does not;
/// links of documents cannot be switched off any more once they were asked for.
pub fn accepts_answer(
    enabled: bool,
    documents: &IdMap<u64, LspDocument>,
    doc_id: u64,
    version: i32,
    feature: Feature,
    request: u64,
) -> (r: bool)
    requires
        documents.wf(),
    ensures
        r == ((enabled || feature == Feature::DocumentLinks) && counts(
            documents@,
            doc_id,
            version,
            feature,
            request,
        )),
{
    if !enabled && feature != Feature::DocumentLinks {
        return false;
    }
    match documents.get(doc_id) {
        Some(document) => document.version == version && document.requests.is_current(
            feature,
            request,
        ),
        None => false,
    }
}

/// Once a feature of a document was asked for again, answers to what was asked before do not
/// count, whatever version they are about.
pub proof fn law_superseded_answers_do_not_count(
    documents: Map<u64, LspDocument>,
    doc_id: u64,
    feature: Feature,
    version: i32,
    older: u64,
)
    requires
        documents.dom().contains(doc_id),
        documents[doc_id].requests.issued < u64::MAX,
        older <= documents[doc_id].requests.issued,
    ensures
        !counts(
            documents.insert(doc_id, after_restart(documents[doc_id], feature)),
            doc_id,
            version,
            feature,
            older,
        ),
{
}

/// Why a completion at the cursor is asked for.
#[derive(Debug, Clone, Copy, PartialEq, Eq, Structural)]
pub enum InlineTrigger {
    /// Somebody asked for it.
    Invoked,
    /// Something was typed.
    Automatic,
}

/// What a server is asked for at the cursor.
#[derive(Debug)]
pub struct InlineCompletionRequest {
    pub request: FeatureRequest,
    pub position: Position,
    pub trigger: InlineTrigger,
}

/// Asks the first server that offers completions at the cursor, which is at `position`, in insert
/// mode only. Where no request can be made (`can_request`), the older one stays.
pub fn request_inline_completion(
    enabled: bool,
    inserting: bool,
    invoked: bool,
    position: Position,
    documents: &mut IdMap<u64, LspDocument>,
    doc_id: u64,
    can_request: bool,
) -> (r: Option<InlineCompletionRequest>)
    requires
        old(documents).wf(),
        old(documents)@.dom().contains(doc_id) ==> old(documents)@[doc_id].requests.issued
            < u64::MAX,
    ensures
        final(documents).wf(),
        final(documents).order() == old(documents).order(),
        first_server_asked(
            enabled && inserting && can_request,
            Feature::InlineCompletion,
            old(documents)@,
            final(documents)@,
            doc_id,
            match r {
                Some(asked) => Some(asked.request),
                None => None,
            },
        ),
        r matches Some(asked) ==> {
            &&& asked.position == position
            &&& asked.trigger == if invoked {
                InlineTrigger::Invoked
            } else {
                InlineTrigger::Automatic
            }
        },
{
    if !enabled || !inserting {
        return None;
    }
    match request_from_first(can_request, Feature::InlineCompletion, documents, doc_id) {
        Some(request) => Some(
            InlineCompletionRequest {
                request,
                position,
                trigger: if invoked {
                    InlineTrigger::Invoked
                } else {
                    InlineTrigger::Automatic
                },
            },
        ),
        None => None,
    }
}

/// Asks the first server that shows values of variables, while a debugger has stopped at a
/// frame.
pub fn request_inline_values(
    enabled: bool,
    stopped_at_frame: bool,
    documents: &mut IdMap<u64, LspDocument>,
    doc_id: u64,
    can_request: bool,
) -> (r: Option<FeatureRequest>)
    requires
        old(documents).wf(),
        old(documents)@.dom().contains(doc_id) ==> old(documents)@[doc_id].requests.issued
            < u64::MAX,
    ensures
        final(documents).wf(),
        final(documents).order() == old(documents).order(),
        first_server_asked(
            enabled && stopped_at_frame && can_request,
            Feature::InlineValues,
            old(documents)@,
            final(documents)@,
            doc_id,
            r,
        ),
{
    if !enabled || !stopped_at_frame {
        return None;
    }
    request_from_first(can_request, Feature::InlineValues, documents, doc_id)
}

/// The first server with the feature is asked, if there is one and it may be asked.
pub open spec fn first_server_asked(
    may_ask: bool,
    feature: Feature,
    before: Map<u64, LspDocument>,
    after: Map<u64, LspDocument>,
    doc_id: u64,
    r: Option<FeatureRequest>,
) -> bool {
    if may_ask && before.dom().contains(doc_id) && supporting(
        before[doc_id].servers@,
        feature,
    ).len() > 0 {
        let document = before[doc_id];
        &&& after == before.insert(doc_id, after_restart(document, feature))
        &&& r matches Some(request) && {
            &&& request.doc_id == doc_id
            &&& request.expected_version == document.version
            &&& request.request == document.requests.restarted(feature).current(feature)
            &&& request.servers@ == seq![supporting(document.servers@, feature)[0]]
        }
    } else {
        r is None && after == before
    }
}

fn request_from_first(
    may_ask: bool,
    feature: Feature,
    documents: &mut IdMap<u64, LspDocument>,
    doc_id: u64,
) -> (r: Option<FeatureRequest>)
    requires
        old(documents).wf(),
        old(documents)@.dom().contains(doc_id) ==> old(documents)@[doc_id].requests.issued
            < u64::MAX,
    ensures
        final(documents).wf(),
        final(documents).order() == old(documents).order(),
        first_server_asked(may_ask, feature, old(documents)@, final(documents)@, doc_id, r),
{
    if !may_ask {
        return None;
    }
    let first: u64 = match documents.get(doc_id) {
        Some(document) => {
            let servers = servers_with_feature(&document.servers, feature);
            if servers.len() == 0 {
                return None;
            }
            servers[0]
        },
        None => {
            return None;
        },
    };
    match documents.get_mut(doc_id) {
        Some(document) => {
            let request = document.requests.restart(feature);
            let mut servers: Vec<u64> = Vec::new();
            servers.push(first);
            assert(servers@ =~= seq![first]);
            Some(FeatureRequest { doc_id, expected_version: document.version, request, servers })
        },
        None => None,
    }
}

/// The servers for a feature are those that have it, each once.
pub proof fn law_servers_with_the_feature_are_asked(
    servers: Seq<LspServer>,
    feature: Feature,
    id: u64,
)
    ensures
        supporting(servers, feature).contains(id) <==> exists|i: int|
            0 <= i < servers.len() && (#[trigger] servers[i]).id == id && servers[i].has(feature),
        supporting(servers, feature).no_duplicates(),
    decreases servers.len(),
{
    if servers.len() > 0 {
        let front = servers.drop_last();
        let rest = supporting(front, feature);
        law_servers_with_the_feature_are_asked(front, feature, id);
        collections::lemma_inserted_contains(rest, servers.last().id, id);
        collections::lemma_inserted_no_duplicates(rest, servers.last().id);
        assert(servers[servers.len() - 1] == servers.last());
        if exists|i: int|
            0 <= i < front.len() && (#[trigger] front[i]).id == id && front[i].has(feature) {
            let i = choose|i: int|
                0 <= i < front.len() && (#[trigger] front[i]).id == id && front[i].has(feature);
            assert(servers[i] == front[i]);
        }
        if exists|i: int|
            0 <= i < servers.len() && (#[trigger] servers[i]).id == id && servers[i].has(feature) {
            let i = choose|i: int|
                0 <= i < servers.len() && (#[trigger] servers[i]).id == id && servers[i].has(
                    feature,
                );
            if i < front.len() {
                assert(front[i] == servers[i]);
            }
        }
    }
}

/// Items are gathered server by server, each with the server that it came from.
pub proof fn law_items_keep_their_server<T>(
    answers: Seq<(u64, Option<Vec<T>>)>,
    server: u64,
    items: Vec<T>,
    i: int,
)
    requires
        0 <= i < items@.len(),
    ensures
        gathered(Seq::<(u64, Option<Vec<T>>)>::empty()).len() == 0,
        gathered(answers.push((server, None))) == gathered(answers),
        ({
            let before = gathered(answers);
            let after = gathered(answers.push((server, Some(items))));
            &&& after.len() == before.len() + items@.len()
            &&& after.take(before.len() as int) == before
            &&& after[before.len() + i] == (server, items@[i])
        }),
{
    assert(answers.push((server, None)).drop_last() =~= answers);
    assert(answers.push((server, Some(items))).drop_last() =~= answers);
    let before = gathered(answers);
    assert(before + Seq::<(u64, T)>::empty() =~= before);
    assert(gathered(answers.push((server, Some(items)))).take(before.len() as int) =~= before);
}

/// An answer counts exactly if its document is there, has not changed and nothing was asked since
/// for the same feature.
pub proof fn law_answers_count_while_nothing_changes(
    documents: Map<u64, LspDocument>,
    doc_id: u64,
    feature: Feature,
    other: Feature,
)
    requires
        documents.dom().contains(doc_id),
        documents[doc_id].requests.wf(),
        documents[doc_id].requests.issued < u64::MAX,
        other != feature,
    ensures
        ({
            let asked = after_restart(documents[doc_id], feature);
            let after = documents.insert(doc_id, asked);
            let request = asked.requests.current(feature);
            &&& counts(after, doc_id, documents[doc_id].version, feature, request)
            &&& !counts(
                after,
                doc_id,
                documents[doc_id].version,
                feature,
                documents[doc_id].requests.current(feature),
            )
            &&& counts(
                after,
                doc_id,
                documents[doc_id].version,
                other,
                documents[doc_id].requests.current(other),
            )
            &&& !counts(documents.remove(doc_id), doc_id, asked.version, feature, request)
        }),
{
    assert(documents[doc_id].requests.current(feature) <= documents[doc_id].requests.issued);
}

/// A question about a wanted feature is put to every server that has it, for the document as it
/// is, and counts from then on; where there is none, or the feature is not wanted, nobody is asked.
pub proof fn law_every_server_with_the_feature_is_asked(
    enabled: bool,
    feature: Feature,
    before: Map<u64, LspDocument>,
    after: Map<u64, LspDocument>,
    doc_id: u64,
    r: Option<FeatureRequest>,
    i: int,
    other: u64,
)
    requires
        every_server_asked(enabled, feature, before, after, doc_id, r),
        before.dom().contains(doc_id),
        before[doc_id].requests.issued < u64::MAX,
        0 <= i < before[doc_id].servers@.len(),
        before[doc_id].servers@[i].has(feature),
        other != doc_id,
    ensures
        !enabled ==> r is None && after == before,
        enabled ==> (r matches Some(request) && request.doc_id == doc_id
            && request.expected_version == before[doc_id].version && request.servers@.contains(
            before[doc_id].servers@[i].id,
        ) && counts(after, doc_id, before[doc_id].version, feature, request.request)),
        after.dom().contains(other) == before.dom().contains(other),
        after.dom().contains(other) ==> after[other] == before[other],
{
    law_servers_with_the_feature_are_asked(
        before[doc_id].servers@,
        feature,
        before[doc_id].servers@[i].id,
    );
    let ids = supporting(before[doc_id].servers@, feature);
    assert(before[doc_id].servers@[i].has(feature));
    assert(ids.contains(before[doc_id].servers@[i].id));
    assert(ids.len() > 0);
}

/// Where one server is enough the first that has the feature is asked, and no other.
pub proof fn law_the_first_server_with_the_feature_is_asked(
    may_ask: bool,
    feature: Feature,
    before: Map<u64, LspDocument>,
    after: Map<u64, LspDocument>,
    doc_id: u64,
    r: Option<FeatureRequest>,
    i: int,
)
    requires
        first_server_asked(may_ask, feature, before, after, doc_id, r),
        before.dom().contains(doc_id),
        0 <= i < before[doc_id].servers@.len(),
        before[doc_id].servers@[i].has(feature),
        forall|j: int| 0 <= j < i ==> !(#[trigger] before[doc_id].servers@[j]).has(feature),
    ensures
        !may_ask ==> r is None && after == before,
        may_ask ==> (r matches Some(request) && request.servers@ == seq![
            before[doc_id].servers@[i].id,
        ] && request.expected_version == before[doc_id].version),
{
    let servers = before[doc_id].servers@;
    lemma_first_supporting(servers, feature, i);
}

proof fn lemma_first_supporting(servers: Seq<LspServer>, feature: Feature, i: int)
    requires
        0 <= i < servers.len(),
        servers[i].has(feature),
        forall|j: int| 0 <= j < i ==> !(#[trigger] servers[j]).has(feature),
    ensures
        supporting(servers, feature).len() > 0,
        supporting(servers, feature)[0] == servers[i].id,
    decreases servers.len(),
{
    let front = servers.drop_last();
    if i < front.len() {
        assert forall|j: int| 0 <= j < i implies !(#[trigger] front[j]).has(feature) by {
            assert(front[j] == servers[j]);
        }
        lemma_first_supporting(front, feature, i);
    } else {
        assert forall|j: int| 0 <= j < front.len() implies !(#[trigger] front[j]).has(feature) by {
            assert(front[j] == servers[j]);
        }
        lemma_none_supporting(front, feature);
    }
}

proof fn lemma_none_supporting(servers: Seq<LspServer>, feature: Feature)
    requires
        forall|j: int| 0 <= j < servers.len() ==> !(#[trigger] servers[j]).has(feature),
    ensures
        supporting(servers, feature).len() == 0,
    decreases servers.len(),
{
    if servers.len() > 0 {
        let front = servers.drop_last();
        assert(servers[servers.len() - 1] == servers.last());
        assert forall|j: int| 0 <= j < front.len() implies !(#[trigger] front[j]).has(feature) by {
            assert(front[j] == servers[j]);
        }
        lemma_none_supporting(front, feature);
    }
}

/// What a server answers is kept in order, each part under that server.
pub proof fn law_answers_are_kept_under_their_server<T>(server: u64, items: Seq<T>, item: T)
    ensures
        tagged(server, Seq::<T>::empty()).len() == 0,
        tagged(server, items.push(item)) == tagged(server, items).push((server, item)),
{
    assert(tagged(server, items.push(item)) =~= tagged(server, items).push((server, item)));
}

/// A server has a feature by what it said it can do; either form of semantic tokens is enough.
pub proof fn law_servers_have_what_they_said(server: LspServer)
    ensures
        server.semantic_tokens_full ==> server.has(Feature::SemanticTokens),
        server.semantic_tokens_range ==> server.has(Feature::SemanticTokens),
        !server.semantic_tokens_full && !server.semantic_tokens_range ==> !server.has(
            Feature::SemanticTokens,
        ),
        server.has(Feature::DocumentColors) == server.document_colors,
        server.has(Feature::CodeLens) == server.code_lens,
        server.has(Feature::DocumentLinks) == server.document_links,
        server.has(Feature::FoldingRange) == server.folding_range,
        server.has(Feature::InlineCompletion) == server.inline_completion,
        server.has(Feature::InlineValues) == server.inline_values,
{
}

} // verus!
