//! Asking servers for the diagnostics of documents.

use vstd::prelude::*;

use crate::collections;
use crate::collections::{contains_id, insert_id, IdMap};
use crate::effect::language_server::requests::LspServer;
use crate::handlers::diagnostics;
use crate::handlers::diagnostics::{
    PullDiagnosticsKey, PullDiagnosticsPriority, PullDiagnosticsTarget,
};
use crate::text::same_text;

verus! {

/// A document that servers can be asked about.
#[derive(Debug)]
pub struct PullDocument {
    pub version: i32,
    pub uri: Option<String>,
    pub servers: Vec<LspServer>,
}

/// The servers that give diagnostics on being asked, each once, as far as they are meant.
pub open spec fn asked_servers(servers: Seq<LspServer>, only: Option<Seq<u64>>) -> Seq<u64>
    decreases servers.len(),
{
    if servers.len() == 0 {
        seq![]
    } else {
        let rest = asked_servers(servers.drop_last(), only);
        let last = servers.last();
        if last.pull_diagnostics && (only matches Some(ids) ==> ids.contains(last.id)) {
            collections::inserted(rest, last.id)
        } else {
            rest
        }
    }
}

fn servers_to_ask(servers: &Vec<LspServer>, only: &Option<Vec<u64>>) -> (r: Vec<u64>)
    ensures
        r@ == asked_servers(servers@, only_view(*only)),
{
    let mut ids: Vec<u64> = Vec::new();
    let mut i: usize = 0;
    assert(servers@.take(0) =~= seq![]);
    while i < servers.len()
        invariant
            i <= servers@.len(),
            ids@ == asked_servers(servers@.take(i as int), only_view(*only)),
        decreases servers@.len() - i,
    {
        assert(servers@.take(i + 1).drop_last() =~= servers@.take(i as int));
        let meant = match only {
            Some(allowed) => contains_id(allowed, servers[i].id),
            None => true,
        };
        if servers[i].pull_diagnostics && meant {
            let _ = insert_id(&mut ids, servers[i].id);
        }
        i += 1;
    }
    assert(servers@.take(i as int) =~= servers@);
    ids
}

pub open spec fn only_view(only: Option<Vec<u64>>) -> Option<Seq<u64>> {
    match only {
        Some(ids) => Some(ids@),
        None => None,
    }
}

/// The generation that comes next for a document on a server.
pub open spec fn next_generation(generations: Map<PullDiagnosticsKey, u64>, key: PullDiagnosticsKey) -> u64 {
    if generations.dom().contains(key) {
        (generations[key] + 1) as u64
    } else {
        1
    }
}

/// How far the generations have come, and what is asked.
pub struct Queued {
    pub generations: Map<PullDiagnosticsKey, u64>,
    pub targets: Seq<diagnostics::TargetView>,
}

/// Each server is asked about the next generation of the document.
pub open spec fn queue_servers(
    before: Queued,
    document_id: u64,
    version: i32,
    uri: Seq<char>,
    servers: Seq<u64>,
    priority: PullDiagnosticsPriority,
) -> Queued
    decreases servers.len(),
{
    if servers.len() == 0 {
        before
    } else {
        let rest = queue_servers(
            before,
            document_id,
            version,
            uri,
            servers.drop_last(),
            priority,
        );
        let key = PullDiagnosticsKey { server_id: servers.last(), document_id };
        let generation = next_generation(rest.generations, key);
        Queued {
            generations: rest.generations.insert(key, generation),
            targets: rest.targets.push(
                diagnostics::TargetView {
                    server_id: servers.last(),
                    document_id,
                    generation,
                    version,
                    uri,
                    priority,
                },
            ),
        }
    }
}

/// Each document that exists and has an address is asked about, in order.
pub open spec fn queue_documents(
    documents: Map<u64, PullDocument>,
    before: Queued,
    ids: Seq<u64>,
    only: Option<Seq<u64>>,
    priority: PullDiagnosticsPriority,
) -> Queued
    decreases ids.len(),
{
    if ids.len() == 0 {
        before
    } else {
        let rest = queue_documents(documents, before, ids.drop_last(), only, priority);
        if documents.dom().contains(ids.last()) && documents[ids.last()].uri is Some {
            let document = documents[ids.last()];
            queue_servers(
                rest,
                ids.last(),
                document.version,
                document.uri->0@,
                asked_servers(document.servers@, only),
                priority,
            )
        } else {
            rest
        }
    }
}

pub open spec fn target_views(targets: Seq<PullDiagnosticsTarget>) -> Seq<diagnostics::TargetView> {
    targets.map_values(|t: PullDiagnosticsTarget| t@)
}

/// No generation has come further than this.
pub open spec fn generations_below(generations: Map<PullDiagnosticsKey, u64>, bound: nat) -> bool {
    forall|key: PullDiagnosticsKey|
        #[trigger] generations.dom().contains(key) ==> generations[key] <= bound
}

proof fn lemma_generations_below(
    generations: Map<PullDiagnosticsKey, u64>,
    a: nat,
    b: nat,
)
    requires
        generations_below(generations, a),
        a <= b,
    ensures
        generations_below(generations, b),
{
}

fn queue_document(
    generations: &mut IdMap<PullDiagnosticsKey, u64>,
    targets: &mut Vec<PullDiagnosticsTarget>,
    document_id: u64,
    version: i32,
    uri: &str,
    servers: &Vec<u64>,
    priority: PullDiagnosticsPriority,
    Ghost(bound): Ghost<nat>,
)
    requires
        old(generations).wf(),
        servers@.no_duplicates(),
        generations_below(old(generations)@, bound),
        bound < u64::MAX,
    ensures
        final(generations).wf(),
        generations_below(final(generations)@, bound + 1),
        ({
            let after = queue_servers(
                Queued { generations: old(generations)@, targets: target_views(old(targets)@) },
                document_id,
                version,
                uri@,
                servers@,
                priority,
            );
            &&& final(generations)@ == after.generations
            &&& target_views(final(targets)@) == after.targets
        }),
{
    let ghost before = Queued { generations: generations@, targets: target_views(targets@) };
    let mut i: usize = 0;
    assert(servers@.take(0) =~= seq![]);
    while i < servers.len()
        invariant
            i <= servers@.len(),
            generations.wf(),
            servers@.no_duplicates(),
            bound < u64::MAX,
            before == (Queued {
                generations: old(generations)@,
                targets: target_views(old(targets)@),
            }),
            generations_below(generations@, bound + 1),
            forall|j: int|
                i <= j < servers@.len() ==> ({
                    let key = PullDiagnosticsKey { server_id: #[trigger] servers@[j], document_id };
                    generations@.dom().contains(key) ==> generations@[key] <= bound
                }),
            generations@ == queue_servers(
                before,
                document_id,
                version,
                uri@,
                servers@.take(i as int),
                priority,
            ).generations,
            target_views(targets@) == queue_servers(
                before,
                document_id,
                version,
                uri@,
                servers@.take(i as int),
                priority,
            ).targets,
        decreases servers@.len() - i,
    {
        assert(servers@.take(i + 1).drop_last() =~= servers@.take(i as int));
        let ghost so_far = targets@;
        let server_id = servers[i];
        let key = PullDiagnosticsKey { server_id, document_id };
        assert(generations@.dom().contains(key) ==> generations@[key] <= bound) by {
            assert(servers@[i as int] == server_id);
        }
        let generation: u64 = match generations.get(key) {
            Some(last) => *last + 1,
            None => 1,
        };
        generations.insert(key, generation);
        targets.push(
            PullDiagnosticsTarget {
                server_id,
                document_id,
                generation,
                version,
                uri: uri.to_owned(),
                priority,
            },
        );
        assert(target_views(targets@) =~= target_views(so_far).push(targets@.last()@));
        i += 1;
    }
    assert(servers@.take(i as int) =~= servers@);
}

proof fn lemma_asked_servers_differ(servers: Seq<LspServer>, only: Option<Seq<u64>>)
    ensures
        asked_servers(servers, only).no_duplicates(),
    decreases servers.len(),
{
    if servers.len() > 0 {
        lemma_asked_servers_differ(servers.drop_last(), only);
    }
}

/// What the servers are asked about documents. Each question is about the next generation, so
/// that answers to older questions can be told.
pub fn queue_document_diagnostics(
    documents: &IdMap<u64, PullDocument>,
    generations: &mut IdMap<PullDiagnosticsKey, u64>,
    document_ids: &Vec<u64>,
    language_servers: &Option<Vec<u64>>,
    priority: PullDiagnosticsPriority,
) -> (targets: Vec<PullDiagnosticsTarget>)
    requires
        documents.wf(),
        old(generations).wf(),
        generations_below(old(generations)@, (u64::MAX - 1 - document_ids@.len()) as nat),
        document_ids@.len() < u64::MAX,
    ensures
        final(generations).wf(),
        ({
            let after = queue_documents(
                documents@,
                Queued { generations: old(generations)@, targets: seq![] },
                document_ids@,
                only_view(*language_servers),
                priority,
            );
            &&& final(generations)@ == after.generations
            &&& target_views(targets@) == after.targets
        }),
{
    let ghost before = Queued { generations: generations@, targets: seq![] };
    let ghost bound = (u64::MAX - 1 - document_ids@.len()) as nat;
    let mut targets: Vec<PullDiagnosticsTarget> = Vec::new();
    let mut i: usize = 0;
    assert(document_ids@.take(0) =~= seq![]);
    assert(target_views(targets@) =~= seq![]);
    while i < document_ids.len()
        invariant
            i <= document_ids@.len(),
            documents.wf(),
            generations.wf(),
            before == (Queued { generations: old(generations)@, targets: seq![] }),
            bound == u64::MAX - 1 - document_ids@.len(),
            generations_below(generations@, bound + i as nat),
            generations@ == queue_documents(
                documents@,
                before,
                document_ids@.take(i as int),
                only_view(*language_servers),
                priority,
            ).generations,
            target_views(targets@) == queue_documents(
                documents@,
                before,
                document_ids@.take(i as int),
                only_view(*language_servers),
                priority,
            ).targets,
        decreases document_ids@.len() - i,
    {
        assert(document_ids@.take(i + 1).drop_last() =~= document_ids@.take(i as int));
        proof {
            lemma_generations_below(generations@, bound + i as nat, bound + i as nat + 1);
        }
        if let Some(document) = documents.get(document_ids[i]) {
            if let Some(uri) = &document.uri {
                let servers = servers_to_ask(&document.servers, language_servers);
                proof {
                    lemma_asked_servers_differ(document.servers@, only_view(*language_servers));
                }
                queue_document(
                    generations,
                    &mut targets,
                    document_ids[i],
                    document.version,
                    uri.as_str(),
                    &servers,
                    priority,
                    Ghost(bound + i as nat),
                );
            }
        }
        i += 1;
    }
    assert(document_ids@.take(i as int) =~= document_ids@);
    targets
}

/// The next generation of a document makes every earlier one of it stale on that server.
pub proof fn law_asking_again_makes_older_questions_stale(
    before: Queued,
    document_id: u64,
    version: i32,
    uri: Seq<char>,
    servers: Seq<u64>,
    priority: PullDiagnosticsPriority,
    server: u64,
)
    requires
        servers.contains(server),
        servers.no_duplicates(),
        ({
            let key = PullDiagnosticsKey { server_id: server, document_id };
            before.generations.dom().contains(key) && before.generations[key] < u64::MAX
        }),
    ensures
        ({
            let key = PullDiagnosticsKey { server_id: server, document_id };
            let after = queue_servers(before, document_id, version, uri, servers, priority);
            after.generations.dom().contains(key) && after.generations[key]
                == before.generations[key] + 1
        }),
    decreases servers.len(),
{
    let key = PullDiagnosticsKey { server_id: server, document_id };
    if servers.last() == server {
        assert(!servers.drop_last().contains(server)) by {
            if servers.drop_last().contains(server) {
                let i = servers.drop_last().index_of(server);
                assert(servers[i] == servers[servers.len() - 1]);
            }
        }
        lemma_other_generations_stay(
            before,
            document_id,
            version,
            uri,
            servers.drop_last(),
            priority,
            server,
        );
    } else {
        let i = servers.index_of(server);
        assert(servers.drop_last()[i] == server);
        law_asking_again_makes_older_questions_stale(
            before,
            document_id,
            version,
            uri,
            servers.drop_last(),
            priority,
            server,
        );
    }
}

proof fn lemma_other_generations_stay(
    before: Queued,
    document_id: u64,
    version: i32,
    uri: Seq<char>,
    servers: Seq<u64>,
    priority: PullDiagnosticsPriority,
    server: u64,
)
    requires
        !servers.contains(server),
    ensures
        ({
            let key = PullDiagnosticsKey { server_id: server, document_id };
            let after = queue_servers(before, document_id, version, uri, servers, priority);
            &&& after.generations.dom().contains(key) == before.generations.dom().contains(key)
            &&& after.generations.dom().contains(key) ==> after.generations[key]
                == before.generations[key]
        }),
    decreases servers.len(),
{
    if servers.len() > 0 {
        assert(servers[servers.len() - 1] != server);
        assert(!servers.drop_last().contains(server)) by {
            if servers.drop_last().contains(server) {
                let i = servers.drop_last().index_of(server);
                assert(servers[i] == server);
            }
        }
        lemma_other_generations_stay(
            before,
            document_id,
            version,
            uri,
            servers.drop_last(),
            priority,
            server,
        );
    }
}

/// The document is as it was when the question came up, and the server can still answer it.
pub open spec fn still_asked(
    documents: Map<u64, PullDocument>,
    generations: Map<PullDiagnosticsKey, u64>,
    target: diagnostics::TargetView,
) -> bool {
    &&& documents.dom().contains(target.document_id)
    &&& documents[target.document_id].version == target.version
    &&& generations.dom().contains(target.key())
    &&& generations[target.key()] == target.generation
    &&& documents[target.document_id].uri matches Some(uri) && uri@ == target.uri
    &&& asked_servers(documents[target.document_id].servers@, None).contains(target.server_id)
}

/// Whether a question is put to its server; otherwise it is given up.
pub fn should_start_pull_diagnostics(
    documents: &IdMap<u64, PullDocument>,
    generations: &IdMap<PullDiagnosticsKey, u64>,
    target: &PullDiagnosticsTarget,
) -> (r: bool)
    requires
        documents.wf(),
        generations.wf(),
    ensures
        r == still_asked(documents@, generations@, target@),
{
    let document = match documents.get(target.document_id) {
        Some(document) => document,
        None => {
            return false;
        },
    };
    let current = match generations.get(target.key()) {
        Some(generation) => *generation == target.generation,
        None => false,
    };
    let same_uri = match &document.uri {
        Some(uri) => same_text(uri.as_str(), target.uri.as_str()),
        None => false,
    };
    if document.version != target.version || !current || !same_uri {
        return false;
    }
    let servers = servers_to_ask(&document.servers, &None);
    contains_id(&servers, target.server_id)
}

/// Whether an answer is to the question as it stands: from the server that was asked, about the
/// version, the generation and the address that were asked about, and the server is still there.
pub fn pull_diagnostics_response_is_current(
    target: &PullDiagnosticsTarget,
    provider_server: Option<u64>,
    response_uri: &str,
    document_version: i32,
    generation_is_current: bool,
    document_uri: Option<&str>,
    server_attached: bool,
) -> (r: bool)
    ensures
        r == (provider_server == Some(target.server_id) && document_version == target.version
            && generation_is_current && (document_uri is Some && document_uri->0@
            == target.uri@) && response_uri@ == target.uri@ && server_attached),
{
    let asked = match provider_server {
        Some(server) => server == target.server_id,
        None => false,
    };
    let same_document = match document_uri {
        Some(uri) => same_text(uri, target.uri.as_str()),
        None => false,
    };
    asked && document_version == target.version && generation_is_current && same_document
        && same_text(response_uri, target.uri.as_str()) && server_attached
}

/// Whether an answer from a server about an address is to the question as it stands, as the
/// documents are by now.
pub fn answer_is_current(
    documents: &IdMap<u64, PullDocument>,
    generations: &IdMap<PullDiagnosticsKey, u64>,
    target: &PullDiagnosticsTarget,
    provider_server: Option<u64>,
    response_uri: &str,
) -> (r: bool)
    requires
        documents.wf(),
        generations.wf(),
    ensures
        r == (still_asked(documents@, generations@, target@) && provider_server == Some(
            target.server_id,
        ) && response_uri@ == target.uri@),
{
    let document = match documents.get(target.document_id) {
        Some(document) => document,
        None => {
            return false;
        },
    };
    let generation_is_current = match generations.get(target.key()) {
        Some(generation) => *generation == target.generation,
        None => false,
    };
    let document_uri = match &document.uri {
        Some(uri) => Some(uri.as_str()),
        None => None,
    };
    let servers = servers_to_ask(&document.servers, &None);
    pull_diagnostics_response_is_current(
        target,
        provider_server,
        response_uri,
        document.version,
        generation_is_current,
        document_uri,
        contains_id(&servers, target.server_id),
    )
}

/// A report on one document.
#[derive(Debug)]
#[allow(inconsistent_fields)]
pub enum ReportKind<D> {
    /// All its diagnostics, and the id of this report.
    Full { items: D, result_id: Option<String> },
    /// Nothing has changed since the report with this id.
    Unchanged { result_id: String },
}

/// What a report makes of a document.
#[derive(Debug)]
pub struct ReportEffect<D> {
    /// The diagnostics that take the place of those it had, unless they stay.
    pub replace: Option<D>,
    /// The id of the last report, by which the next one can say what has changed.
    pub result_id: Option<String>,
}

pub fn apply_document_diagnostic_kind<D>(report: ReportKind<D>) -> (r: ReportEffect<D>)
    ensures
        match report {
            ReportKind::Full { items, result_id } => r.replace == Some(items) && r.result_id
                == result_id,
            ReportKind::Unchanged { result_id } => r.replace is None && r.result_id == Some(
                result_id,
            ),
        },
{
    match report {
        ReportKind::Full { items, result_id } => ReportEffect { replace: Some(items), result_id },
        ReportKind::Unchanged { result_id } => ReportEffect {
            replace: None,
            result_id: Some(result_id),
        },
    }
}

/// An answer: a report on the document and on others that it has to do with, or on the others
/// only.
#[derive(Debug)]
pub struct DiagnosticAnswer<D> {
    pub report: Option<ReportKind<D>>,
    /// The address of each other document, where it can be read, and the report on it.
    pub related: Vec<(Option<String>, ReportKind<D>)>,
}

/// What an answer does: reports on addresses.
#[derive(Debug)]
pub struct DiagnosticEffect<D> {
    pub uri: String,
    pub effect: ReportEffect<D>,
    /// The document that remembers the id of the report.
    pub remember: Option<u64>,
}

/// The document at an address, if one is open.
pub open spec fn document_at(documents: Seq<(u64, Option<String>)>, uri: Seq<char>) -> Option<u64>
    decreases documents.len(),
{
    if documents.len() == 0 {
        None
    } else {
        match documents[0].1 {
            Some(at) if at@ == uri => Some(documents[0].0),
            _ => document_at(documents.drop_first(), uri),
        }
    }
}

fn find_document_at(documents: &Vec<(u64, Option<String>)>, uri: &str) -> (r: Option<u64>)
    ensures
        r == document_at(documents@, uri@),
{
    let mut i: usize = 0;
    assert(documents@.skip(0) =~= documents@);
    while i < documents.len()
        invariant
            i <= documents@.len(),
            document_at(documents@, uri@) == document_at(documents@.skip(i as int), uri@),
        decreases documents@.len() - i,
    {
        assert(documents@.skip(i as int).drop_first() =~= documents@.skip(i + 1));
        if let Some(at) = &documents[i].1 {
            if same_text(at.as_str(), uri) {
                return Some(documents[i].0);
            }
        }
        i += 1;
    }
    None
}

/// The effect is that of the report, on the document at the address.
pub open spec fn is_effect_of<D>(
    effect: DiagnosticEffect<D>,
    uri: Seq<char>,
    report: ReportKind<D>,
    remember: Option<u64>,
) -> bool {
    &&& effect.uri@ == uri
    &&& effect.remember == remember
    &&& match report {
        ReportKind::Full { items, result_id } => effect.effect.replace == Some(items)
            && effect.effect.result_id == result_id,
        ReportKind::Unchanged { result_id } => effect.effect.replace is None
            && effect.effect.result_id == Some(result_id),
    }
}

/// The effects are those of the related reports whose addresses can be read.
pub open spec fn are_related_effects<D>(
    effects: Seq<DiagnosticEffect<D>>,
    related: Seq<(Option<String>, ReportKind<D>)>,
    documents: Seq<(u64, Option<String>)>,
) -> bool
    decreases related.len(),
{
    if related.len() == 0 {
        effects.len() == 0
    } else {
        match related.last().0 {
            Some(uri) => {
                &&& effects.len() > 0
                &&& is_effect_of(
                    effects.last(),
                    uri@,
                    related.last().1,
                    document_at(documents, uri@),
                )
                &&& are_related_effects(effects.drop_last(), related.drop_last(), documents)
            },
            None => are_related_effects(effects, related.drop_last(), documents),
        }
    }
}

fn apply_related<D>(
    related: Vec<(Option<String>, ReportKind<D>)>,
    documents: &Vec<(u64, Option<String>)>,
) -> (r: Vec<DiagnosticEffect<D>>)
    ensures
        are_related_effects(r@, related@, documents@),
{
    let mut effects: Vec<DiagnosticEffect<D>> = Vec::new();
    let ghost all = related@;
    assert(all.take(0) =~= seq![]);
    for item in it: related
        invariant
            it.seq() == all,
            are_related_effects(effects@, all.take(it.index()), documents@),
    {
        assert(all.take(it.index() + 1).drop_last() =~= all.take(it.index()));
        assert(all.take(it.index() + 1).last() == item);
        let ghost before = effects@;
        if let Some(uri) = item.0 {
            let remember = find_document_at(documents, uri.as_str());
            effects.push(
                DiagnosticEffect { uri, effect: apply_document_diagnostic_kind(item.1), remember },
            );
            assert(effects@.drop_last() =~= before);
        }
    }
    assert(all.take(all.len() as int) =~= all);
    effects
}

/// `effects` are what an answer does, if it counts: first to the document it is about, then to
/// the others.
pub open spec fn answer_effects<D>(
    effects: Seq<DiagnosticEffect<D>>,
    target: PullDiagnosticsTarget,
    counts: bool,
    answer: DiagnosticAnswer<D>,
    documents: Seq<(u64, Option<String>)>,
) -> bool {
    if !counts {
        effects.len() == 0
    } else {
        match answer.report {
            Some(report) => {
                &&& effects.len() > 0
                &&& is_effect_of(effects[0], target.uri@, report, Some(target.document_id))
                &&& are_related_effects(effects.drop_first(), answer.related@, documents)
            },
            None => are_related_effects(effects, answer.related@, documents),
        }
    }
}

/// What an answer that still counts does: first to the document it is about, then to the others.
/// An address that cannot be read is passed over.
pub fn apply_pull_diagnostics_response<D>(
    target: &PullDiagnosticsTarget,
    is_current: bool,
    answer: DiagnosticAnswer<D>,
    documents: &Vec<(u64, Option<String>)>,
) -> (r: Vec<DiagnosticEffect<D>>)
    ensures
        answer_effects(r@, *target, is_current, answer, documents@),
{
    if !is_current {
        return Vec::new();
    }
    let related = apply_related(answer.related, documents);
    match answer.report {
        Some(report) => {
            let first = DiagnosticEffect {
                uri: target.uri.clone(),
                effect: apply_document_diagnostic_kind(report),
                remember: Some(target.document_id),
            };
            let mut effects = related;
            let ghost rest = effects@;
            effects.insert(0, first);
            assert(effects@.drop_first() =~= rest);
            effects
        },
        None => related,
    }
}

/// The servers that are asked are those that can be and, if some are named, are named, each once.
pub proof fn law_servers_that_can_be_are_asked(
    servers: Seq<LspServer>,
    only: Option<Seq<u64>>,
    id: u64,
)
    ensures
        asked_servers(servers, only).contains(id) <==> (exists|i: int|
            0 <= i < servers.len() && (#[trigger] servers[i]).id == id
                && servers[i].pull_diagnostics) && (only matches Some(ids) ==> ids.contains(id)),
        asked_servers(servers, only).no_duplicates(),
    decreases servers.len(),
{
    if servers.len() > 0 {
        let front = servers.drop_last();
        let rest = asked_servers(front, only);
        law_servers_that_can_be_are_asked(front, only, id);
        collections::lemma_inserted_contains(rest, servers.last().id, id);
        collections::lemma_inserted_no_duplicates(rest, servers.last().id);
        assert(servers[servers.len() - 1] == servers.last());
        if exists|i: int|
            0 <= i < front.len() && (#[trigger] front[i]).id == id && front[i].pull_diagnostics {
            let i = choose|i: int|
                0 <= i < front.len() && (#[trigger] front[i]).id == id && front[i].pull_diagnostics;
            assert(servers[i] == front[i]);
        }
        if exists|i: int|
            0 <= i < servers.len() && (#[trigger] servers[i]).id == id
                && servers[i].pull_diagnostics {
            let i = choose|i: int|
                0 <= i < servers.len() && (#[trigger] servers[i]).id == id
                    && servers[i].pull_diagnostics;
            if i < front.len() {
                assert(front[i] == servers[i]);
            }
        }
    }
}

/// Each server gets one target, behind those that are there, for this version of the document and
/// with a number of its own; other documents keep their numbers.
pub proof fn law_each_server_gets_a_target(
    before: Queued,
    document_id: u64,
    version: i32,
    uri: Seq<char>,
    servers: Seq<u64>,
    server: u64,
    priority: PullDiagnosticsPriority,
    other: PullDiagnosticsKey,
)
    requires
        other.document_id != document_id,
    ensures
        queue_servers(before, document_id, version, uri, seq![], priority) == before,
        ({
            let rest = queue_servers(before, document_id, version, uri, servers, priority);
            let after = queue_servers(
                before,
                document_id,
                version,
                uri,
                servers.push(server),
                priority,
            );
            let key = PullDiagnosticsKey { server_id: server, document_id };
            &&& after.targets.len() == rest.targets.len() + 1
            &&& after.targets.drop_last() == rest.targets
            &&& after.targets.last().server_id == server
            &&& after.targets.last().document_id == document_id
            &&& after.targets.last().version == version
            &&& after.targets.last().uri == uri
            &&& after.targets.last().priority == priority
            &&& after.generations.dom().contains(key)
            &&& after.generations[key] == after.targets.last().generation
            &&& rest.generations.dom().contains(key) && rest.generations[key] < u64::MAX
                ==> after.generations[key] == rest.generations[key] + 1
            &&& !rest.generations.dom().contains(key) ==> after.generations[key] == 1
            &&& after.generations.dom().contains(other) == rest.generations.dom().contains(other)
            &&& after.generations[other] == rest.generations[other]
        }),
{
    assert(servers.push(server).drop_last() =~= servers);
    let rest = queue_servers(before, document_id, version, uri, servers, priority);
    assert(queue_servers(
        before,
        document_id,
        version,
        uri,
        servers.push(server),
        priority,
    ).targets.drop_last() =~= rest.targets);
}

/// Documents are asked about in turn; those that are gone or have no place are not.
pub proof fn law_documents_are_asked_about_in_turn(
    documents: Map<u64, PullDocument>,
    before: Queued,
    ids: Seq<u64>,
    id: u64,
    only: Option<Seq<u64>>,
    priority: PullDiagnosticsPriority,
)
    ensures
        queue_documents(documents, before, seq![], only, priority) == before,
        ({
            let rest = queue_documents(documents, before, ids, only, priority);
            let after = queue_documents(documents, before, ids.push(id), only, priority);
            &&& !documents.dom().contains(id) || documents[id].uri is None ==> after == rest
            &&& documents.dom().contains(id) && documents[id].uri is Some ==> after
                == queue_servers(
                rest,
                id,
                documents[id].version,
                documents[id].uri->0@,
                asked_servers(documents[id].servers@, only),
                priority,
            )
        }),
{
    assert(ids.push(id).drop_last() =~= ids);
}

/// A document is found by its place: the first that is there.
pub proof fn law_documents_are_found_by_place(documents: Seq<(u64, Option<String>)>, uri: Seq<char>)
    ensures
        match document_at(documents, uri) {
            Some(id) => exists|i: int|
                {
                    &&& 0 <= i < documents.len()
                    &&& (#[trigger] documents[i]).0 == id
                    &&& documents[i].1 matches Some(at) && at@ == uri
                    &&& forall|j: int|
                        0 <= j < i ==> !((#[trigger] documents[j]).1 matches Some(at) && at@ == uri)
                },
            None => forall|i: int|
                0 <= i < documents.len() ==> !((#[trigger] documents[i]).1 matches Some(at) && at@
                    == uri),
        },
    decreases documents.len(),
{
    if documents.len() > 0 {
        if documents[0].1 matches Some(at) && at@ == uri {
            assert(documents[0].0 == document_at(documents, uri)->0);
        } else {
            let rest = documents.drop_first();
            law_documents_are_found_by_place(rest, uri);
            match document_at(rest, uri) {
                Some(id) => {
                    let i = choose|i: int|
                        {
                            &&& 0 <= i < rest.len()
                            &&& (#[trigger] rest[i]).0 == id
                            &&& rest[i].1 matches Some(at) && at@ == uri
                            &&& forall|j: int|
                                0 <= j < i ==> !((#[trigger] rest[j]).1 matches Some(at) && at@
                                    == uri)
                        };
                    assert(documents[i + 1] == rest[i]);
                    assert forall|j: int| 0 <= j < i + 1 implies !(
                    (#[trigger] documents[j]).1 matches Some(at) && at@ == uri) by {
                        if j > 0 {
                            assert(rest[j - 1] == documents[j]);
                        }
                    }
                },
                None => {
                    assert forall|i: int| 0 <= i < documents.len() implies !(
                    (#[trigger] documents[i]).1 matches Some(at) && at@ == uri) by {
                        if i > 0 {
                            assert(rest[i - 1] == documents[i]);
                        }
                    }
                },
            }
        }
    }
}

/// An answer that no longer counts does nothing; one that does concerns the document that was
/// asked about first, and then the related documents that have a place, in order.
pub proof fn law_answers_concern_the_asked_document_first<D>(
    effects: Seq<DiagnosticEffect<D>>,
    target: PullDiagnosticsTarget,
    counts: bool,
    answer: DiagnosticAnswer<D>,
    documents: Seq<(u64, Option<String>)>,
)
    requires
        answer_effects(effects, target, counts, answer, documents),
    ensures
        !counts ==> effects.len() == 0,
        counts && answer.report is Some ==> effects.len() > 0 && effects[0].uri@ == target.uri@
            && effects[0].remember == Some(target.document_id),
        counts && answer.report is Some && answer.related@.len() == 0 ==> effects.len() == 1,
        counts && answer.report is None && answer.related@.len() == 0 ==> effects.len() == 0,
        counts && (answer.report matches Some(ReportKind::Full { items, result_id })) ==> (
        answer.report matches Some(ReportKind::Full { items, result_id })
            && effects[0].effect.replace == Some(items) && effects[0].effect.result_id == result_id),
        counts && (answer.report matches Some(ReportKind::Unchanged { result_id }))
            ==> effects[0].effect.replace is None,
{
}

/// Each related document with a place is concerned, in order, with its own report.
pub proof fn law_related_documents_are_concerned_in_order<D>(
    effects: Seq<DiagnosticEffect<D>>,
    related: Seq<(Option<String>, ReportKind<D>)>,
    one: (Option<String>, ReportKind<D>),
    documents: Seq<(u64, Option<String>)>,
)
    requires
        are_related_effects(effects, related.push(one), documents),
    ensures
        one.0 is None ==> are_related_effects(effects, related, documents),
        one.0 matches Some(uri) ==> effects.len() > 0 && effects.last().uri@ == uri@
            && effects.last().remember == document_at(documents, uri@) && are_related_effects(
            effects.drop_last(),
            related,
            documents,
        ),
{
    assert(related.push(one).drop_last() =~= related);
}

/// A question is still open exactly while its document is as it was, in the same place, its server
/// can be asked, and it was not asked anew.
pub proof fn law_questions_stay_open_while_nothing_changes(
    documents: Map<u64, PullDocument>,
    generations: Map<PullDiagnosticsKey, u64>,
    target: diagnostics::TargetView,
)
    ensures
        ({
            let key = PullDiagnosticsKey {
                server_id: target.server_id,
                document_id: target.document_id,
            };
            let open = still_asked(documents, generations, target);
            &&& open ==> generations.contains_pair(key, target.generation)
            &&& open ==> documents.dom().contains(target.document_id)
                && documents[target.document_id].version == target.version
            &&& open ==> (documents[target.document_id].uri matches Some(uri) && uri@ == target.uri)
            &&& open ==> exists|i: int|
                0 <= i < documents[target.document_id].servers@.len() && (
                #[trigger] documents[target.document_id].servers@[i]).id == target.server_id
                    && documents[target.document_id].servers@[i].pull_diagnostics
            &&& generations.contains_pair(key, target.generation) && documents.dom().contains(
                target.document_id,
            ) && documents[target.document_id].version == target.version
                && documents[target.document_id].uri is Some
                && documents[target.document_id].uri->0@ == target.uri && (exists|i: int|
                0 <= i < documents[target.document_id].servers@.len() && (
                #[trigger] documents[target.document_id].servers@[i]).id == target.server_id
                    && documents[target.document_id].servers@[i].pull_diagnostics) ==> open
        }),
{
    law_servers_that_can_be_are_asked(
        documents[target.document_id].servers@,
        None,
        target.server_id,
    );
}

} // verus!
