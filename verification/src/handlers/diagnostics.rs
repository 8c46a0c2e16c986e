//! Pull diagnostics: which document is asked about next, on which language server, and when a
//! failed request is tried again.
//!
//! Each language server has at most one request in flight. What else wants asking waits in the
//! server's queue, each document once. A newer version of a document supersedes the request in
//! flight for it and trails behind it. Failed requests are retried with a growing delay, a
//! bounded number of times.

use std::collections::VecDeque;

use vstd::prelude::*;

use crate::collections;
use crate::collections::{insert_id, insert_ids, remove_id, IdMap, Ident};
use crate::text::same_text;

verus! {

/// How long a changed document rests before it is asked about, in milliseconds.
pub const DOCUMENT_DEBOUNCE: u64 = 250;

/// How long a server with dependencies between files rests before all its files are asked about.
pub const INTER_FILE_SWEEP_DEBOUNCE: u64 = 1000;

pub const RETRY_BASE_DELAY: u64 = 250;

pub const RETRY_MAX_DELAY: u64 = 4000;

/// How many times a failed request is tried again.
pub const RETRY_LIMIT: u8 = 5;

/// The error code by which a server says that it gave up on a request.
pub const SERVER_CANCELLED: i64 = -32802;

/// One document on one language server.
#[derive(Debug, Clone, Copy, PartialEq, Eq, Structural)]
pub struct PullDiagnosticsKey {
    pub server_id: u64,
    pub document_id: u64,
}

impl Ident for PullDiagnosticsKey {
    fn same(&self, other: &Self) -> (r: bool) {
        *self == *other
    }
}

/// Whether somebody is waiting for the answer.
#[derive(Debug, Clone, Copy, PartialEq, Eq, Structural)]
pub enum PullDiagnosticsPriority {
    Background,
    Interactive,
}

/// A version of a document to ask a server about.
#[derive(Debug)]
pub struct PullDiagnosticsTarget {
    pub server_id: u64,
    pub document_id: u64,
    pub generation: u64,
    pub version: i32,
    pub uri: String,
    pub priority: PullDiagnosticsPriority,
}

/// What a [`PullDiagnosticsTarget`] says.
pub struct TargetView {
    pub server_id: u64,
    pub document_id: u64,
    pub generation: u64,
    pub version: i32,
    pub uri: Seq<char>,
    pub priority: PullDiagnosticsPriority,
}

impl TargetView {
    pub open spec fn key(self) -> PullDiagnosticsKey {
        PullDiagnosticsKey { server_id: self.server_id, document_id: self.document_id }
    }

    /// Later generations are newer, and within one generation later versions.
    pub open spec fn is_newer_than(self, other: TargetView) -> bool {
        self.generation > other.generation || (self.generation == other.generation && self.version
            > other.version)
    }
}

impl View for PullDiagnosticsTarget {
    type V = TargetView;

    open spec fn view(&self) -> TargetView {
        TargetView {
            server_id: self.server_id,
            document_id: self.document_id,
            generation: self.generation,
            version: self.version,
            uri: self.uri@,
            priority: self.priority,
        }
    }
}

impl PullDiagnosticsTarget {
    pub fn key(&self) -> (r: PullDiagnosticsKey)
        ensures
            r == self@.key(),
    {
        PullDiagnosticsKey { server_id: self.server_id, document_id: self.document_id }
    }

    pub fn is_newer_than(&self, other: &Self) -> (r: bool)
        ensures
            r == self@.is_newer_than(other@),
    {
        self.generation > other.generation || (self.generation == other.generation && self.version
            > other.version)
    }

    /// A target that says the same.
    pub fn copy(&self) -> (r: Self)
        ensures
            r@ == self@,
    {
        PullDiagnosticsTarget {
            server_id: self.server_id,
            document_id: self.document_id,
            generation: self.generation,
            version: self.version,
            uri: self.uri.clone(),
            priority: self.priority,
        }
    }

    /// Whether two targets say the same.
    pub fn same(&self, other: &Self) -> (r: bool)
        ensures
            r == (self@ == other@),
    {
        self.server_id == other.server_id && self.document_id == other.document_id
            && self.generation == other.generation && self.version == other.version
            && self.priority == other.priority && same_text(self.uri.as_str(), other.uri.as_str())
    }
}

/// Why a request failed.
#[derive(Debug, Clone, Copy, PartialEq, Eq, Structural)]
pub enum RequestError {
    /// The server answered with an error. `retrigger` is what its cancellation data says, where
    /// it sent any that could be read.
    Rpc { code: i64, retrigger: Option<bool> },
    Parse,
    Io,
    Timeout,
    StreamClosed,
    Unhandled,
    Other,
}

/// A failure is worth another try when the transport failed, or when the server cancelled the
/// request and did not say that it need not be sent again.
pub open spec fn retryable(error: RequestError) -> bool {
    match error {
        RequestError::Rpc { code, retrigger } => code == SERVER_CANCELLED && retrigger != Some(
            false,
        ),
        RequestError::Timeout | RequestError::StreamClosed | RequestError::Io
        | RequestError::Other => true,
        RequestError::Parse | RequestError::Unhandled => false,
    }
}

pub fn should_retry(error: &RequestError) -> (r: bool)
    ensures
        r == retryable(*error),
{
    match *error {
        RequestError::Rpc { code, retrigger } => {
            if code == SERVER_CANCELLED {
                match retrigger {
                    Some(b) => b,
                    None => true,
                }
            } else {
                false
            }
        },
        RequestError::Timeout | RequestError::StreamClosed | RequestError::Io
        | RequestError::Other => true,
        RequestError::Parse | RequestError::Unhandled => false,
    }
}

/// The delay before the given attempt: the base delay, doubled for each attempt after the first,
/// and never more than the maximum.
pub open spec fn backoff(attempt: u8) -> int {
    let doublings = if attempt <= 1 {
        0
    } else if attempt <= 16 {
        attempt - 1
    } else {
        15
    };
    let delay = RETRY_BASE_DELAY * vstd::arithmetic::power2::pow2(doublings as nat);
    if delay < RETRY_MAX_DELAY {
        delay as int
    } else {
        RETRY_MAX_DELAY as int
    }
}

pub fn retry_delay(attempt: u8) -> (r: u64)
    ensures
        r == backoff(attempt),
        attempt <= 1 ==> r == 250,
        attempt == 2 ==> r == 500,
        attempt == 3 ==> r == 1000,
        attempt == 4 ==> r == 2000,
        attempt >= 5 ==> r == 4000,
{
    let mut doublings: u64 = if attempt <= 1 {
        0
    } else {
        attempt as u64 - 1
    };
    if doublings > 15 {
        doublings = 15;
    }
    proof {
        vstd::arithmetic::power2::lemma2_to64();
        if doublings < 15 {
            vstd::arithmetic::power2::lemma_pow2_strictly_increases(doublings as nat, 15);
        }
        if doublings > 4 {
            vstd::arithmetic::power2::lemma_pow2_strictly_increases(4, doublings as nat);
        }
        vstd::bits::lemma_u64_shl_is_mul(1, doublings);
    }
    let multiplier: u64 = 1u64 << doublings;
    let delay: u64 = RETRY_BASE_DELAY * multiplier;
    if delay < RETRY_MAX_DELAY {
        delay
    } else {
        RETRY_MAX_DELAY
    }
}

/// What the coordinator knows of one document on one server: the latest target, and where its
/// retries stand.
#[derive(Debug)]
pub struct KeyState {
    pub latest: PullDiagnosticsTarget,
    pub retry_attempt: u8,
    pub retry_deadline: Option<u64>,
}

pub struct KeyStateView {
    pub latest: TargetView,
    pub retry_attempt: u8,
    pub retry_deadline: Option<u64>,
}

impl View for KeyState {
    type V = KeyStateView;

    open spec fn view(&self) -> KeyStateView {
        KeyStateView {
            latest: self.latest@,
            retry_attempt: self.retry_attempt,
            retry_deadline: self.retry_deadline,
        }
    }
}

/// The state of a document on which no request has failed yet.
pub open spec fn fresh_key(target: TargetView) -> KeyStateView {
    KeyStateView { latest: target, retry_attempt: 0, retry_deadline: None }
}

impl KeyState {
    pub fn new(target: PullDiagnosticsTarget) -> (r: Self)
        ensures
            r@ == fresh_key(target@),
    {
        KeyState { latest: target, retry_attempt: 0, retry_deadline: None }
    }
}

/// What one server is doing: the request in flight, the target that trails behind it, and the
/// documents that wait. `queued` holds the same documents as `queue`.
#[derive(Debug)]
pub struct ServerState {
    pub in_flight: Option<PullDiagnosticsTarget>,
    pub trailing: Option<PullDiagnosticsTarget>,
    pub queue: VecDeque<PullDiagnosticsKey>,
    pub queued: Vec<PullDiagnosticsKey>,
}

#[verifier::ext_equal]
pub struct ServerView {
    pub in_flight: Option<TargetView>,
    pub trailing: Option<TargetView>,
    pub queue: Seq<PullDiagnosticsKey>,
}

pub open spec fn target_view(target: Option<PullDiagnosticsTarget>) -> Option<TargetView> {
    match target {
        Some(t) => Some(t@),
        None => None,
    }
}

impl View for ServerState {
    type V = ServerView;

    open spec fn view(&self) -> ServerView {
        ServerView {
            in_flight: target_view(self.in_flight),
            trailing: target_view(self.trailing),
            queue: self.queue@,
        }
    }
}

/// A server that has been asked nothing yet.
pub open spec fn idle_server() -> ServerView {
    ServerView { in_flight: None, trailing: None, queue: seq![] }
}

/// The queue with `key` in it: in front for an interactive target, else where it already
/// stands, or at the end.
pub open spec fn enqueued(
    queue: Seq<PullDiagnosticsKey>,
    key: PullDiagnosticsKey,
    priority: PullDiagnosticsPriority,
) -> Seq<PullDiagnosticsKey> {
    match priority {
        PullDiagnosticsPriority::Interactive => seq![key] + collections::without(queue, key),
        PullDiagnosticsPriority::Background => collections::inserted(queue, key),
    }
}

impl ServerState {
    pub open spec fn wf(&self) -> bool {
        &&& self.queue@.no_duplicates()
        &&& forall|k: PullDiagnosticsKey| #[trigger]
            self.queued@.contains(k) <==> self.queue@.contains(k)
    }

    pub fn new() -> (r: Self)
        ensures
            r.wf(),
            r@ == idle_server(),
    {
        let r = ServerState {
            in_flight: None,
            trailing: None,
            queue: VecDeque::new(),
            queued: Vec::new(),
        };
        assert(r@ =~= idle_server());
        r
    }

    /// Puts a document into the queue.
    pub fn queue(&mut self, key: PullDiagnosticsKey, priority: PullDiagnosticsPriority)
        requires
            old(self).wf(),
        ensures
            final(self).wf(),
            final(self)@ == (ServerView { queue: enqueued(old(self)@.queue, key, priority), ..old(self)@ }),
    {
        let ghost before = self.queue@;
        if insert_id(&mut self.queued, key) {
            match priority {
                PullDiagnosticsPriority::Interactive => {
                    self.queue.push_front(key);
                    proof {
                        crate::collections::lemma_without_absent(before, key);
                        assert(self.queue@ =~= seq![key] + before);
                    }
                },
                PullDiagnosticsPriority::Background => {
                    self.queue.push_back(key);
                },
            }
        } else if priority == PullDiagnosticsPriority::Interactive {
            let rest = queue_without(&self.queue, key);
            self.queue = rest;
            self.queue.push_front(key);
            proof {
                assert(self.queue@ =~= seq![key] + collections::without(before, key));
            }
        }
        proof {
            assert(self.queue@ == enqueued(before, key, priority));
            lemma_enqueued_no_duplicates(before, key, priority);
            assert forall|k: PullDiagnosticsKey| #[trigger] self.queued@.contains(k) <==> self.queue@.contains(k) by {
                crate::collections::lemma_inserted_contains(old(self).queued@, key, k);
                lemma_enqueued_contains(before, key, priority, k);
                assert(old(self).queued@.contains(k) <==> old(self).queue@.contains(k));
            }
        }
    }
}

pub proof fn lemma_enqueued_contains(
    queue: Seq<PullDiagnosticsKey>,
    key: PullDiagnosticsKey,
    priority: PullDiagnosticsPriority,
    k: PullDiagnosticsKey,
)
    ensures
        enqueued(queue, key, priority).contains(k) <==> (queue.contains(k) || k == key),
{
    crate::collections::lemma_inserted_contains(queue, key, k);
    crate::collections::lemma_without_contains(queue, key, k);
    let w = collections::without(queue, key);
    let t = seq![key] + w;
    if w.contains(k) {
        assert(t[w.index_of(k) + 1] == k);
    }
    assert(t[0] == key);
    if t.contains(k) {
        let i = t.index_of(k);
        if i > 0 {
            assert(w[i - 1] == k);
        }
    }
}

pub proof fn lemma_enqueued_no_duplicates(
    queue: Seq<PullDiagnosticsKey>,
    key: PullDiagnosticsKey,
    priority: PullDiagnosticsPriority,
)
    requires
        queue.no_duplicates(),
    ensures
        enqueued(queue, key, priority).no_duplicates(),
{
    crate::collections::lemma_inserted_no_duplicates(queue, key);
    crate::collections::lemma_without_no_duplicates(queue, key);
    crate::collections::lemma_without_contains(queue, key, key);
    let w = collections::without(queue, key);
    let t = seq![key] + w;
    assert forall|i: int, j: int| 0 <= i < t.len() && 0 <= j < t.len() && i != j implies t[i]
        != t[j] by {
        if i > 0 {
            assert(w.contains(w[i - 1]));
        }
        if j > 0 {
            assert(w.contains(w[j - 1]));
        }
    }
}

fn queue_without(queue: &VecDeque<PullDiagnosticsKey>, key: PullDiagnosticsKey) -> (r: VecDeque<
    PullDiagnosticsKey,
>)
    ensures
        r@ == collections::without(queue@, key),
{
    let mut kept: VecDeque<PullDiagnosticsKey> = VecDeque::new();
    let mut i: usize = 0;
    while i < queue.len()
        invariant
            i <= queue@.len(),
            kept@ == collections::without(queue@.take(i as int), key),
        decreases queue@.len() - i,
    {
        let x = queue[i];
        if x != key {
            kept.push_back(x);
        }
        i += 1;
        assert(queue@.take(i as int).drop_last() =~= queue@.take(i - 1));
    }
    assert(queue@.take(i as int) =~= queue@);
    kept
}

/// Whether a key waits for a retry that is not due.
pub open spec fn waits(state: KeyStateView, now: u64) -> bool {
    match state.retry_deadline {
        Some(deadline) => deadline > now,
        None => false,
    }
}

/// Looks through the first `n` keys of a queue for one that can be asked about: forgotten
/// keys leave the queue, waiting ones go to its end.
pub open spec fn scan(
    keys: Map<PullDiagnosticsKey, KeyStateView>,
    queue: Seq<PullDiagnosticsKey>,
    n: nat,
    now: u64,
) -> (Seq<PullDiagnosticsKey>, Option<PullDiagnosticsKey>)
    decreases n,
{
    if n == 0 || queue.len() == 0 {
        (queue, None)
    } else {
        let key = queue[0];
        let rest = queue.skip(1);
        if !keys.dom().contains(key) {
            scan(keys, rest, (n - 1) as nat, now)
        } else if waits(keys[key], now) {
            scan(keys, rest.push(key), (n - 1) as nat, now)
        } else {
            (rest, Some(key))
        }
    }
}

/// Everything the coordinator holds, as mathematics.
#[verifier::ext_equal]
pub struct Model {
    pub keys: Map<PullDiagnosticsKey, KeyStateView>,
    pub key_order: Seq<PullDiagnosticsKey>,
    pub servers: Map<u64, ServerView>,
    pub documents: Seq<u64>,
    pub document_deadline: Option<u64>,
    pub inter_file_servers: Seq<u64>,
    pub inter_file_deadline: Option<u64>,
    pub cancellations: Seq<TargetView>,
}

impl Model {
    pub open spec fn server(self, server_id: u64) -> ServerView {
        if self.servers.dom().contains(server_id) {
            self.servers[server_id]
        } else {
            idle_server()
        }
    }

    pub open spec fn with_server(self, server_id: u64, server: ServerView) -> Model {
        Model { servers: self.servers.insert(server_id, server), ..self }
    }

    pub open spec fn with_key(self, key: PullDiagnosticsKey, state: KeyStateView) -> Model {
        Model {
            keys: self.keys.insert(key, state),
            key_order: collections::inserted(self.key_order, key),
            ..self
        }
    }

    /// Whether the request in flight on the key's server is about the key.
    pub open spec fn flies(self, key: PullDiagnosticsKey) -> bool {
        match self.server(key.server_id).in_flight {
            Some(t) => t.key() == key,
            None => false,
        }
    }

    /// A target is news when its document is unknown or known by an older target only.
    pub open spec fn is_news(self, target: TargetView) -> bool {
        !self.keys.dom().contains(target.key()) || target.is_newer_than(
            self.keys[target.key()].latest,
        )
    }

    /// The latest target of a key is put behind the request in flight for it, or into the queue.
    pub open spec fn enqueue_key(self, key: PullDiagnosticsKey) -> Model {
        if !self.keys.dom().contains(key) {
            self
        } else {
            let target = self.keys[key].latest;
            let server = self.server(key.server_id);
            if self.flies(key) {
                self.with_server(key.server_id, ServerView { trailing: Some(target), ..server })
            } else {
                self.with_server(
                    key.server_id,
                    ServerView { queue: enqueued(server.queue, key, target.priority), ..server },
                )
            }
        }
    }

    /// One target is taken note of. News about a document in flight cancels that request.
    pub open spec fn schedule_one(self, target: TargetView) -> Model {
        if !self.is_news(target) {
            self
        } else {
            let known = self.with_key(target.key(), fresh_key(target));
            let next = known.enqueue_key(target.key());
            if self.flies(target.key()) {
                Model {
                    cancellations: self.cancellations.push(
                        self.server(target.server_id).in_flight->0,
                    ),
                    ..next
                }
            } else {
                next
            }
        }
    }

    /// Targets are taken note of in turn; also the servers for which there was news.
    pub open spec fn schedule_all(self, targets: Seq<TargetView>) -> (Model, Seq<u64>)
        decreases targets.len(),
    {
        if targets.len() == 0 {
            (self, seq![])
        } else {
            let (m, affected) = self.schedule_all(targets.drop_last());
            let t = targets.last();
            if m.is_news(t) {
                (m.schedule_one(t), collections::inserted(affected, t.server_id))
            } else {
                (m, affected)
            }
        }
    }

    /// An idle server takes the next document from its queue; also the target that is started.
    pub open spec fn start_next(self, server_id: u64, now: u64) -> (Model, Option<TargetView>) {
        if !self.servers.dom().contains(server_id) || self.servers[server_id].in_flight is Some {
            (self, None)
        } else {
            let server = self.servers[server_id];
            let (queue, found) = scan(self.keys, server.queue, server.queue.len(), now);
            match found {
                None => (self.with_server(server_id, ServerView { queue, ..server }), None),
                Some(key) => {
                    let target = self.keys[key].latest;
                    (
                        self.with_server(
                            server_id,
                            ServerView { in_flight: Some(target), queue, ..server },
                        ),
                        Some(target),
                    )
                },
            }
        }
    }

    /// Each of the servers takes its next document, in turn; also what was started.
    pub open spec fn start_all(self, servers: Seq<u64>, now: u64) -> (Model, Seq<TargetView>)
        decreases servers.len(),
    {
        if servers.len() == 0 {
            (self, seq![])
        } else {
            let (m, started) = self.start_all(servers.drop_last(), now);
            let (next, target) = m.start_next(servers.last(), now);
            (
                next,
                match target {
                    Some(t) => started.push(t),
                    None => started,
                },
            )
        }
    }

    /// Whether the target is the request in flight on its server.
    pub open spec fn awaits(self, target: TargetView) -> bool {
        self.servers.dom().contains(target.server_id) && self.servers[target.server_id].in_flight
            == Some(target)
    }

    /// Whether the target is the latest of its document.
    pub open spec fn is_current(self, target: TargetView) -> bool {
        self.keys.dom().contains(target.key()) && self.keys[target.key()].latest == target
    }

    pub open spec fn has_newer(self, target: TargetView) -> bool {
        self.server(target.server_id).trailing is Some || !self.is_current(target)
    }

    /// The server of the target has nothing in flight any more.
    pub open spec fn landed(self, target: TargetView) -> Model {
        self.with_server(
            target.server_id,
            ServerView { in_flight: None, trailing: None, ..self.server(target.server_id) },
        )
    }

    pub open spec fn without_retry(self, key: PullDiagnosticsKey) -> Model {
        if self.keys.dom().contains(key) {
            self.with_key(
                key,
                KeyStateView { retry_attempt: 0, retry_deadline: None, ..self.keys[key] },
            )
        } else {
            self
        }
    }

    /// One more attempt has failed: the next is due after the backoff, up to the limit.
    pub open spec fn with_retry(self, key: PullDiagnosticsKey, now: u64) -> Model {
        let state = self.keys[key];
        let attempt = if state.retry_attempt < u8::MAX {
            (state.retry_attempt + 1) as u8
        } else {
            u8::MAX
        };
        self.with_key(
            key,
            KeyStateView {
                retry_attempt: attempt,
                retry_deadline: if attempt <= RETRY_LIMIT {
                    Some((now + backoff(attempt)) as u64)
                } else {
                    None
                },
                ..state
            },
        )
    }

    /// A request in flight has ended, before the server takes its next document.
    pub open spec fn settled(self, target: TargetView, end: RequestEnd, now: u64) -> Model {
        let key = target.key();
        let newer = self.has_newer(target);
        let m = self.landed(target);
        match end {
            RequestEnd::Answered => if newer {
                m.without_retry(key).enqueue_key(key)
            } else {
                m.without_retry(key)
            },
            RequestEnd::Retryable => if newer {
                m.without_retry(key).enqueue_key(key)
            } else {
                m.with_retry(key, now)
            },
            RequestEnd::Refused => if newer {
                m.enqueue_key(key)
            } else {
                m
            },
        }
    }

    /// A request has ended: what follows of it, and the target that is started.
    pub open spec fn finish(self, target: TargetView, end: RequestEnd, now: u64) -> (
        Model,
        Option<TargetView>,
    ) {
        if self.awaits(target) {
            self.settled(target, end, now).start_next(target.server_id, now)
        } else {
            (self, None)
        }
    }

    /// The keys whose retry is due, in order.
    pub open spec fn due(self, order: Seq<PullDiagnosticsKey>, now: u64) -> Seq<PullDiagnosticsKey>
        decreases order.len(),
    {
        if order.len() == 0 {
            seq![]
        } else {
            let rest = self.due(order.drop_last(), now);
            match self.keys[order.last()].retry_deadline {
                Some(deadline) => if deadline <= now {
                    rest.push(order.last())
                } else {
                    rest
                },
                None => rest,
            }
        }
    }

    pub open spec fn without_deadline(self, key: PullDiagnosticsKey) -> Model {
        if self.keys.dom().contains(key) {
            self.with_key(key, KeyStateView { retry_deadline: None, ..self.keys[key] })
        } else {
            self
        }
    }

    /// Each of the keys gives up its deadline and is put into its queue; also their servers.
    pub open spec fn wake_all(self, keys: Seq<PullDiagnosticsKey>) -> (Model, Seq<u64>)
        decreases keys.len(),
    {
        if keys.len() == 0 {
            (self, seq![])
        } else {
            let (m, affected) = self.wake_all(keys.drop_last());
            let key = keys.last();
            (m.without_deadline(key).enqueue_key(key), collections::inserted(affected, key.server_id))
        }
    }

    pub open spec fn documents_due(self, now: u64) -> bool {
        match self.document_deadline {
            Some(deadline) => deadline <= now,
            None => false,
        }
    }

    pub open spec fn sweep_due(self, now: u64) -> bool {
        match self.inter_file_deadline {
            Some(deadline) => deadline <= now,
            None => false,
        }
    }

    /// Time has come to `now`: due debounces are released and due retries started.
    pub open spec fn tick(self, now: u64) -> (Model, Seq<TargetView>) {
        let m = if self.documents_due(now) {
            Model { document_deadline: None, documents: seq![], ..self }
        } else {
            self
        };
        let m = if self.sweep_due(now) {
            Model { inter_file_deadline: None, inter_file_servers: seq![], ..m }
        } else {
            m
        };
        let (m, affected) = m.wake_all(m.due(m.key_order, now));
        m.start_all(affected, now)
    }

    /// Keys of other servers.
    pub open spec fn order_without(order: Seq<PullDiagnosticsKey>, server_id: u64) -> Seq<
        PullDiagnosticsKey,
    >
        decreases order.len(),
    {
        if order.len() == 0 {
            seq![]
        } else {
            let rest = Model::order_without(order.drop_last(), server_id);
            if order.last().server_id == server_id {
                rest
            } else {
                rest.push(order.last())
            }
        }
    }

    /// A server is gone: its request is cancelled and everything about it is forgotten.
    pub open spec fn clear_server(self, server_id: u64) -> Model {
        let inter_file_servers = collections::without(self.inter_file_servers, server_id);
        Model {
            keys: self.keys.restrict(
                Set::new(|k: PullDiagnosticsKey| k.server_id != server_id),
            ),
            key_order: Model::order_without(self.key_order, server_id),
            servers: self.servers.remove(server_id),
            cancellations: match self.server(server_id).in_flight {
                Some(t) => self.cancellations.push(t),
                None => self.cancellations,
            },
            inter_file_servers,
            inter_file_deadline: if inter_file_servers.len() == 0 {
                None
            } else {
                self.inter_file_deadline
            },
            ..self
        }
    }

    pub open spec fn debounce_document(self, document_id: u64, now: u64) -> Model {
        Model {
            documents: collections::inserted(self.documents, document_id),
            document_deadline: Some((now + DOCUMENT_DEBOUNCE) as u64),
            ..self
        }
    }

    pub open spec fn debounce_inter_file_sweep(self, servers: Seq<u64>, now: u64) -> Model {
        if servers.len() == 0 {
            self
        } else {
            Model {
                inter_file_servers: collections::inserted_all(self.inter_file_servers, servers),
                inter_file_deadline: Some((now + INTER_FILE_SWEEP_DEBOUNCE) as u64),
                ..self
            }
        }
    }
}

/// How a request ended, as far as what follows is concerned.
#[derive(Debug, Clone, Copy, PartialEq, Eq, Structural)]
pub enum RequestEnd {
    Answered,
    Retryable,
    Refused,
}

/// What came of a request. `R` is the server's report, which is passed on as it is.
pub enum PullDiagnosticsRequestOutcome<R> {
    Response(R),
    Failed(RequestError),
    Abandoned,
}

impl<R> PullDiagnosticsRequestOutcome<R> {
    pub open spec fn end(self) -> RequestEnd {
        match self {
            PullDiagnosticsRequestOutcome::Response(_) => RequestEnd::Answered,
            PullDiagnosticsRequestOutcome::Failed(error) => if retryable(error) {
                RequestEnd::Retryable
            } else {
                RequestEnd::Refused
            },
            PullDiagnosticsRequestOutcome::Abandoned => RequestEnd::Refused,
        }
    }
}

impl ServerState {
    /// Takes the next document that can be asked about from the queue.
    fn take_ready(&mut self, keys: &IdMap<PullDiagnosticsKey, KeyState>, now: u64) -> (r: Option<
        PullDiagnosticsKey,
    >)
        requires
            old(self).wf(),
            keys.wf(),
        ensures
            final(self).wf(),
            ({
                let (queue, found) = scan(
                    key_views(keys@),
                    old(self)@.queue,
                    old(self)@.queue.len(),
                    now,
                );
                r == found && final(self)@ == (ServerView { queue, ..old(self)@ })
            }),
    {
        let ghost start = self.queue@;
        let total: usize = self.queue.len();
        let mut tried: usize = 0;
        while tried < total
            invariant
                self.wf(),
                keys.wf(),
                tried <= total,
                total == start.len(),
                self.in_flight == old(self).in_flight,
                self.trailing == old(self).trailing,
                old(self)@.queue == start,
                scan(key_views(keys@), start, total as nat, now) == scan(
                    key_views(keys@),
                    self.queue@,
                    (total - tried) as nat,
                    now,
                ),
            decreases total - tried,
        {
            let ghost before = *self;
            match self.queue.pop_front() {
                None => {
                    return None;
                },
                Some(key) => {
                    remove_id(&mut self.queued, key);
                    proof {
                        assert(self.queue@ =~= before.queue@.skip(1));
                        lemma_popped(before.queue@, before.queued@, key);
                    }
                    match keys.get(key) {
                        None => {},
                        Some(state) => {
                            let waiting = match state.retry_deadline {
                                Some(deadline) => deadline > now,
                                None => false,
                            };
                            if waiting {
                                let ghost popped = *self;
                                self.queue.push_back(key);
                                insert_id(&mut self.queued, key);
                                proof {
                                    lemma_pushed(popped.queue@, popped.queued@, key);
                                }
                            } else {
                                return Some(key);
                            }
                        },
                    }
                },
            }
            tried += 1;
        }
        None
    }
}

proof fn lemma_popped(
    queue: Seq<PullDiagnosticsKey>,
    queued: Seq<PullDiagnosticsKey>,
    key: PullDiagnosticsKey,
)
    requires
        queue.len() > 0,
        key == queue[0],
        queue.no_duplicates(),
        forall|k: PullDiagnosticsKey| #[trigger] queued.contains(k) <==> queue.contains(k),
    ensures
        queue.skip(1).no_duplicates(),
        forall|k: PullDiagnosticsKey| #[trigger]
            collections::without(queued, key).contains(k) <==> queue.skip(1).contains(k),
        !queue.skip(1).contains(key),
{
    let rest = queue.skip(1);
    assert forall|k: PullDiagnosticsKey| rest.contains(k) <==> (queue.contains(k) && k != key) by {
        if rest.contains(k) {
            let i = rest.index_of(k);
            assert(queue[i + 1] == k);
        }
        if queue.contains(k) && k != key {
            let i = queue.index_of(k);
            assert(rest[i - 1] == k);
        }
    }
    assert forall|k: PullDiagnosticsKey| #[trigger]
        collections::without(queued, key).contains(k) <==> rest.contains(k) by {
        crate::collections::lemma_without_contains(queued, key, k);
    }
}

proof fn lemma_pushed(
    queue: Seq<PullDiagnosticsKey>,
    queued: Seq<PullDiagnosticsKey>,
    key: PullDiagnosticsKey,
)
    requires
        queue.no_duplicates(),
        !queue.contains(key),
        forall|k: PullDiagnosticsKey| #[trigger] queued.contains(k) <==> queue.contains(k),
    ensures
        queue.push(key).no_duplicates(),
        forall|k: PullDiagnosticsKey| #[trigger]
            collections::inserted(queued, key).contains(k) <==> queue.push(key).contains(k),
{
    assert(collections::inserted(queue, key) == queue.push(key));
    crate::collections::lemma_inserted_no_duplicates(queue, key);
    assert forall|k: PullDiagnosticsKey| #[trigger]
        collections::inserted(queued, key).contains(k) <==> queue.push(key).contains(k) by {
        crate::collections::lemma_inserted_contains(queued, key, k);
        crate::collections::lemma_inserted_contains(queue, key, k);
    }
}

/// What a map of key states says.
pub open spec fn key_views(keys: Map<PullDiagnosticsKey, KeyState>) -> Map<
    PullDiagnosticsKey,
    KeyStateView,
> {
    keys.map_values(|s: KeyState| s@)
}

/// What a map of server states says.
pub open spec fn server_views(servers: Map<u64, ServerState>) -> Map<u64, ServerView> {
    servers.map_values(|s: ServerState| s@)
}

proof fn lemma_key_views_insert(
    keys: Map<PullDiagnosticsKey, KeyState>,
    key: PullDiagnosticsKey,
    state: KeyState,
)
    ensures
        key_views(keys.insert(key, state)) == key_views(keys).insert(key, state@),
{
    assert(key_views(keys.insert(key, state)) =~= key_views(keys).insert(key, state@));
}

proof fn lemma_server_views_insert(servers: Map<u64, ServerState>, id: u64, server: ServerState)
    ensures
        server_views(servers.insert(id, server)) == server_views(servers).insert(id, server@),
{
    assert(server_views(servers.insert(id, server)) =~= server_views(servers).insert(id, server@));
}

/// What the coordinator asks of the program around it.
pub enum PullDiagnosticsEvent<R> {
    StartPullDiagnostics { target: PullDiagnosticsTarget },
    PullDiagnosticsResponse { target: PullDiagnosticsTarget, response: R },
    QueuePullDiagnosticsForDocuments { document_ids: Vec<u64> },
    QueuePullDiagnosticsInterFileSweep { language_servers: Vec<u64> },
}

pub enum EventView<R> {
    Start { target: TargetView },
    Response { target: TargetView, response: R },
    QueueDocuments { document_ids: Seq<u64> },
    QueueSweep { language_servers: Seq<u64> },
}

impl<R> View for PullDiagnosticsEvent<R> {
    type V = EventView<R>;

    open spec fn view(&self) -> EventView<R> {
        match *self {
            PullDiagnosticsEvent::StartPullDiagnostics { target } => EventView::Start {
                target: target@,
            },
            PullDiagnosticsEvent::PullDiagnosticsResponse { target, response } => EventView::Response {
                target: target@,
                response,
            },
            PullDiagnosticsEvent::QueuePullDiagnosticsForDocuments { document_ids } => EventView::QueueDocuments {
                document_ids: document_ids@,
            },
            PullDiagnosticsEvent::QueuePullDiagnosticsInterFileSweep { language_servers } => EventView::QueueSweep {
                language_servers: language_servers@,
            },
        }
    }
}

/// What a list of events says.
pub open spec fn event_views<R>(events: Seq<PullDiagnosticsEvent<R>>) -> Seq<EventView<R>> {
    events.map_values(|e: PullDiagnosticsEvent<R>| e@)
}

/// One start per target.
pub open spec fn starts<R>(targets: Seq<TargetView>) -> Seq<EventView<R>> {
    targets.map_values(|t: TargetView| EventView::Start { target: t })
}

pub open spec fn start<R>(target: Option<TargetView>) -> Seq<EventView<R>> {
    match target {
        Some(t) => seq![EventView::Start { target: t }],
        None => seq![],
    }
}

pub open spec fn target_views(targets: Seq<PullDiagnosticsTarget>) -> Seq<TargetView> {
    targets.map_values(|t: PullDiagnosticsTarget| t@)
}

impl Model {
    /// What holds of a document on a server: it is filed under its own key, its server is known,
    /// it has failed at most once more than it may be retried, and while it waits for a retry (or
    /// has none left) it is neither queued nor in flight.
    pub open spec fn key_ok(self, key: PullDiagnosticsKey) -> bool {
        let state = self.keys[key];
        &&& state.latest.key() == key
        &&& self.servers.dom().contains(key.server_id)
        &&& state.retry_attempt <= RETRY_LIMIT + 1
        &&& state.retry_attempt == RETRY_LIMIT + 1 ==> state.retry_deadline is None
        &&& (state.retry_deadline is Some || state.retry_attempt == RETRY_LIMIT + 1) ==> {
            &&& !self.flies(key)
            &&& !self.servers[key.server_id].queue.contains(key)
        }
    }

    /// What holds of a server: its queue holds its own known documents, each once and none that
    /// is in flight; a target trails only behind an older one in flight for the same document,
    /// and is then the latest; with nothing trailing the target in flight is the latest.
    pub open spec fn server_ok(self, server_id: u64) -> bool {
        let server = self.servers[server_id];
        &&& server.queue.no_duplicates()
        &&& forall|k: PullDiagnosticsKey| #[trigger]
            server.queue.contains(k) ==> k.server_id == server_id && self.keys.dom().contains(k)
        &&& match server.in_flight {
            None => server.trailing is None,
            Some(t) => {
                &&& t.server_id == server_id
                &&& self.keys.dom().contains(t.key())
                &&& !server.queue.contains(t.key())
                &&& match server.trailing {
                    None => self.keys[t.key()].latest == t,
                    Some(x) => self.keys[t.key()].latest == x && x.is_newer_than(t),
                }
            },
        }
    }

    /// What every operation keeps.
    pub open spec fn inv(self) -> bool {
        &&& self.key_order.no_duplicates()
        &&& forall|k: PullDiagnosticsKey| #[trigger]
            self.key_order.contains(k) <==> self.keys.dom().contains(k)
        &&& forall|k: PullDiagnosticsKey| #[trigger]
            self.keys.dom().contains(k) ==> self.key_ok(k)
        &&& forall|s: u64| #[trigger] self.servers.dom().contains(s) ==> self.server_ok(s)
    }
}

proof fn lemma_order_with_key(m: Model, key: PullDiagnosticsKey, state: KeyStateView)
    requires
        m.key_order.no_duplicates(),
        forall|k: PullDiagnosticsKey| #[trigger]
            m.key_order.contains(k) <==> m.keys.dom().contains(k),
    ensures
        m.with_key(key, state).key_order.no_duplicates(),
        forall|k: PullDiagnosticsKey| #[trigger]
            m.with_key(key, state).key_order.contains(k) <==> m.with_key(
                key,
                state,
            ).keys.dom().contains(k),
{
    crate::collections::lemma_inserted_no_duplicates(m.key_order, key);
    assert forall|k: PullDiagnosticsKey| #[trigger]
        m.with_key(key, state).key_order.contains(k) <==> m.with_key(
            key,
            state,
        ).keys.dom().contains(k) by {
        crate::collections::lemma_inserted_contains(m.key_order, key, k);
    }
}

/// Taking note of a target keeps the invariant.
pub proof fn lemma_schedule_one_keeps_invariant(m: Model, target: TargetView)
    requires
        m.inv(),
    ensures
        m.schedule_one(target).inv(),
{
    if m.is_news(target) {
        let key = target.key();
        let sid = target.server_id;
        let known = m.with_key(key, fresh_key(target));
        lemma_order_with_key(m, key, fresh_key(target));
        let next = m.schedule_one(target);
        assert(next.keys == known.keys && next.key_order == known.key_order);
        assert(known.server(sid) == m.server(sid));
        if m.servers.dom().contains(sid) {
            assert(m.server_ok(sid));
        }
        assert(m.server(sid).queue.no_duplicates());
        lemma_enqueued_no_duplicates(m.server(sid).queue, key, target.priority);
        assert forall|k: PullDiagnosticsKey| #[trigger]
            enqueued(m.server(sid).queue, key, target.priority).contains(k) <==> (
        m.server(sid).queue.contains(k) || k == key) by {
            lemma_enqueued_contains(m.server(sid).queue, key, target.priority, k);
        }
        assert forall|s: u64| #[trigger] next.servers.dom().contains(s) implies next.server_ok(
            s,
        ) by {
            if s != sid {
                assert(m.servers.dom().contains(s));
                assert(m.server_ok(s));
            }
        }
        assert forall|k: PullDiagnosticsKey| #[trigger]
            next.keys.dom().contains(k) implies next.key_ok(k) by {
            if k != key {
                assert(m.keys.dom().contains(k));
                assert(m.key_ok(k));
            }
        }
    }
}

/// Taking note of many targets keeps the invariant.
pub proof fn lemma_schedule_all_keeps_invariant(m: Model, targets: Seq<TargetView>)
    requires
        m.inv(),
    ensures
        m.schedule_all(targets).0.inv(),
    decreases targets.len(),
{
    if targets.len() > 0 {
        lemma_schedule_all_keeps_invariant(m, targets.drop_last());
        lemma_schedule_one_keeps_invariant(m.schedule_all(targets.drop_last()).0, targets.last());
    }
}

/// Under the invariant an idle server takes the head of its queue.
pub proof fn lemma_scan_takes_the_head(m: Model, server_id: u64, now: u64)
    requires
        m.inv(),
        m.servers.dom().contains(server_id),
    ensures
        ({
            let queue = m.servers[server_id].queue;
            scan(m.keys, queue, queue.len(), now) == (if queue.len() == 0 {
                (queue, None)
            } else {
                (queue.skip(1), Some(queue[0]))
            })
        }),
{
    let queue = m.servers[server_id].queue;
    if queue.len() > 0 {
        assert(m.server_ok(server_id));
        assert(queue.contains(queue[0]));
        assert(m.keys.dom().contains(queue[0]));
        assert(m.key_ok(queue[0]));
    }
}

/// Starting the next document of a server keeps the invariant.
pub proof fn lemma_start_next_keeps_invariant(m: Model, server_id: u64, now: u64)
    requires
        m.inv(),
    ensures
        m.start_next(server_id, now).0.inv(),
{
    if m.servers.dom().contains(server_id) && m.servers[server_id].in_flight is None {
        lemma_scan_takes_the_head(m, server_id, now);
        let queue = m.servers[server_id].queue;
        let next = m.start_next(server_id, now).0;
        assert(m.server_ok(server_id));
        if queue.len() > 0 {
            let key = queue[0];
            assert(queue.contains(key));
            assert(m.keys.dom().contains(key));
            assert(m.key_ok(key));
            let rest = queue.skip(1);
            lemma_popped(queue, queue, key);
            assert forall|k: PullDiagnosticsKey| #[trigger] rest.contains(k) implies queue.contains(
                k,
            ) && k != key by {
                assert(queue[rest.index_of(k) + 1] == k);
            }
        } else {
            assert(next.servers =~= m.servers);
        }
        assert forall|s: u64| #[trigger] next.servers.dom().contains(s) implies next.server_ok(
            s,
        ) by {
            assert(m.servers.dom().contains(s));
            assert(m.server_ok(s));
        }
        assert forall|k: PullDiagnosticsKey| #[trigger]
            next.keys.dom().contains(k) implies next.key_ok(k) by {
            assert(m.keys.dom().contains(k));
            assert(m.key_ok(k));
        }
    }
}

pub proof fn lemma_start_all_keeps_invariant(m: Model, servers: Seq<u64>, now: u64)
    requires
        m.inv(),
    ensures
        m.start_all(servers, now).0.inv(),
    decreases servers.len(),
{
    if servers.len() > 0 {
        lemma_start_all_keeps_invariant(m, servers.drop_last(), now);
        lemma_start_next_keeps_invariant(
            m.start_all(servers.drop_last(), now).0,
            servers.last(),
            now,
        );
    }
}

/// The end of a request keeps the invariant.
pub proof fn lemma_finish_keeps_invariant(m: Model, target: TargetView, end: RequestEnd, now: u64)
    requires
        m.inv(),
    ensures
        m.finish(target, end, now).0.inv(),
{
    if m.awaits(target) {
        let key = target.key();
        let sid = target.server_id;
        assert(m.server_ok(sid));
        assert(m.keys.dom().contains(key));
        assert(m.key_ok(key));
        let server = m.servers[sid];
        let next = m.settled(target, end, now);
        let latest = m.keys[key].latest;
        lemma_enqueued_no_duplicates(server.queue, key, latest.priority);
        assert forall|k: PullDiagnosticsKey| #[trigger]
            enqueued(server.queue, key, latest.priority).contains(k) <==> (server.queue.contains(k)
            || k == key) by {
            lemma_enqueued_contains(server.queue, key, latest.priority, k);
        }
        assert(collections::inserted(m.key_order, key) == m.key_order) by {
            assert(m.key_order.contains(key));
        }
        assert(next.key_order == m.key_order);
        assert(next.keys.dom() =~= m.keys.dom());
        assert(next.keys[key].latest == latest);
        assert forall|s: u64| #[trigger] next.servers.dom().contains(s) implies next.server_ok(
            s,
        ) by {
            assert(m.servers.dom().contains(s));
            assert(m.server_ok(s));
        }
        assert forall|k: PullDiagnosticsKey| #[trigger]
            next.keys.dom().contains(k) implies next.key_ok(k) by {
            assert(m.keys.dom().contains(k));
            assert(m.key_ok(k));
        }
        lemma_start_next_keeps_invariant(next, sid, now);
    }
}

proof fn lemma_wake_keeps_invariant(m: Model, key: PullDiagnosticsKey)
    requires
        m.inv(),
        m.keys.dom().contains(key),
        m.keys[key].retry_deadline is Some,
    ensures
        m.without_deadline(key).enqueue_key(key).inv(),
        m.without_deadline(key).enqueue_key(key).keys == m.keys.insert(
            key,
            (KeyStateView { retry_deadline: None, ..m.keys[key] }),
        ),
{
    assert(m.key_ok(key));
    let sid = key.server_id;
    assert(m.server_ok(sid));
    let server = m.servers[sid];
    let next = m.without_deadline(key).enqueue_key(key);
    assert(m.key_order.contains(key));
    lemma_enqueued_no_duplicates(server.queue, key, m.keys[key].latest.priority);
    assert forall|k: PullDiagnosticsKey| #[trigger]
        enqueued(server.queue, key, m.keys[key].latest.priority).contains(k) <==> (
    server.queue.contains(k) || k == key) by {
        lemma_enqueued_contains(server.queue, key, m.keys[key].latest.priority, k);
    }
    assert(next.keys.dom() =~= m.keys.dom());
    assert forall|s: u64| #[trigger] next.servers.dom().contains(s) implies next.server_ok(s) by {
        assert(m.servers.dom().contains(s));
        assert(m.server_ok(s));
    }
    assert forall|k: PullDiagnosticsKey| #[trigger]
        next.keys.dom().contains(k) implies next.key_ok(k) by {
        assert(m.keys.dom().contains(k));
        assert(m.key_ok(k));
    }
}

/// The keys found due are known, each once, and have a deadline.
proof fn lemma_due(m: Model, order: Seq<PullDiagnosticsKey>, now: u64)
    requires
        order.no_duplicates(),
    ensures
        m.due(order, now).no_duplicates(),
        forall|k: PullDiagnosticsKey| #[trigger]
            m.due(order, now).contains(k) <==> order.contains(k) && m.keys[k].retry_deadline is Some
                && m.keys[k].retry_deadline->0 <= now,
    decreases order.len(),
{
    if order.len() > 0 {
        let d = order.drop_last();
        let rest = m.due(d, now);
        let last = order.last();
        lemma_due(m, d, now);
        assert(!d.contains(last)) by {
            if d.contains(last) {
                assert(order[d.index_of(last)] == order[order.len() - 1]);
            }
        }
        assert forall|k: PullDiagnosticsKey| order.contains(k) <==> (d.contains(k) || k == last) by {
            if d.contains(k) {
                assert(order[d.index_of(k)] == k);
            }
            if order.contains(k) {
                let i = order.index_of(k);
                if i < d.len() {
                    assert(d[i] == k);
                }
            }
            assert(order[order.len() - 1] == last);
        }
        assert(collections::inserted(rest, last) == rest.push(last));
        crate::collections::lemma_inserted_no_duplicates(rest, last);
        assert forall|k: PullDiagnosticsKey| rest.push(last).contains(k) <==> (rest.contains(k) || k
            == last) by {
            crate::collections::lemma_inserted_contains(rest, last, k);
        }
        assert forall|k: PullDiagnosticsKey| #[trigger]
            m.due(order, now).contains(k) <==> order.contains(k) && m.keys[k].retry_deadline is Some
                && m.keys[k].retry_deadline->0 <= now by {
            assert(order.contains(k) <==> (d.contains(k) || k == last));
            assert(rest.push(last).contains(k) <==> (rest.contains(k) || k == last));
            assert(rest.contains(k) ==> d.contains(k));
        }
    }
}

proof fn lemma_wake_all_keeps_invariant(m: Model, keys: Seq<PullDiagnosticsKey>)
    requires
        m.inv(),
        keys.no_duplicates(),
        forall|k: PullDiagnosticsKey| #[trigger]
            keys.contains(k) ==> m.keys.dom().contains(k) && m.keys[k].retry_deadline is Some,
    ensures
        m.wake_all(keys).0.inv(),
        m.wake_all(keys).0.keys.dom() == m.keys.dom(),
        forall|k: PullDiagnosticsKey| #[trigger]
            m.keys.dom().contains(k) && !keys.contains(k) ==> m.wake_all(keys).0.keys[k]
                == m.keys[k],
    decreases keys.len(),
{
    if keys.len() > 0 {
        let d = keys.drop_last();
        let key = keys.last();
        assert forall|k: PullDiagnosticsKey| #[trigger] d.contains(k) implies keys.contains(k) by {
            assert(keys[d.index_of(k)] == k);
        }
        assert(!d.contains(key)) by {
            if d.contains(key) {
                assert(keys[d.index_of(key)] == keys[keys.len() - 1]);
            }
        }
        assert(keys.contains(key));
        lemma_wake_all_keeps_invariant(m, d);
        let before = m.wake_all(d).0;
        lemma_wake_keeps_invariant(before, key);
        let next = m.wake_all(keys).0;
        assert(next.keys.dom() =~= m.keys.dom());
        assert forall|k: PullDiagnosticsKey| #[trigger]
            m.keys.dom().contains(k) && !keys.contains(k) implies next.keys[k] == m.keys[k] by {
            assert(!d.contains(k));
        }
    }
}

/// The passing of time keeps the invariant.
pub proof fn lemma_tick_keeps_invariant(m: Model, now: u64)
    requires
        m.inv(),
    ensures
        m.tick(now).0.inv(),
{
    let m1 = if m.documents_due(now) {
        Model { document_deadline: None, documents: seq![], ..m }
    } else {
        m
    };
    let m2 = if m.sweep_due(now) {
        Model { inter_file_deadline: None, inter_file_servers: seq![], ..m1 }
    } else {
        m1
    };
    lemma_same_requests_same_invariant(m, m2);
    lemma_due(m2, m2.key_order, now);
    let due = m2.due(m2.key_order, now);
    assert forall|k: PullDiagnosticsKey| #[trigger] due.contains(k) implies m2.keys.dom().contains(
        k,
    ) && m2.keys[k].retry_deadline is Some by {
        assert(m2.key_order.contains(k));
    }
    lemma_wake_all_keeps_invariant(m2, due);
    let (m3, affected) = m2.wake_all(due);
    lemma_start_all_keeps_invariant(m3, affected, now);
}

/// The invariant speaks of documents and servers alone.
proof fn lemma_same_requests_same_invariant(a: Model, b: Model)
    requires
        a.inv(),
        a.keys == b.keys,
        a.key_order == b.key_order,
        a.servers == b.servers,
    ensures
        b.inv(),
{
    assert forall|k: PullDiagnosticsKey| #[trigger] b.keys.dom().contains(k) implies b.key_ok(
        k,
    ) by {
        assert(a.key_ok(k));
    }
    assert forall|s: u64| #[trigger] b.servers.dom().contains(s) implies b.server_ok(s) by {
        assert(a.server_ok(s));
    }
}

proof fn lemma_order_without(order: Seq<PullDiagnosticsKey>, server_id: u64)
    requires
        order.no_duplicates(),
    ensures
        Model::order_without(order, server_id).no_duplicates(),
        forall|k: PullDiagnosticsKey| #[trigger]
            Model::order_without(order, server_id).contains(k) <==> order.contains(k) && k.server_id
                != server_id,
    decreases order.len(),
{
    if order.len() > 0 {
        let d = order.drop_last();
        let last = order.last();
        lemma_order_without(d, server_id);
        let rest = Model::order_without(d, server_id);
        assert(!d.contains(last)) by {
            if d.contains(last) {
                assert(order[d.index_of(last)] == order[order.len() - 1]);
            }
        }
        assert forall|k: PullDiagnosticsKey| order.contains(k) <==> (d.contains(k) || k == last) by {
            if d.contains(k) {
                assert(order[d.index_of(k)] == k);
            }
            if order.contains(k) {
                let i = order.index_of(k);
                if i < d.len() {
                    assert(d[i] == k);
                }
            }
            assert(order[order.len() - 1] == last);
        }
        assert(!rest.contains(last));
        assert(collections::inserted(rest, last) == rest.push(last));
        crate::collections::lemma_inserted_no_duplicates(rest, last);
        assert forall|k: PullDiagnosticsKey| rest.push(last).contains(k) <==> (rest.contains(k) || k
            == last) by {
            crate::collections::lemma_inserted_contains(rest, last, k);
        }
        assert forall|k: PullDiagnosticsKey| #[trigger]
            Model::order_without(order, server_id).contains(k) <==> order.contains(k) && k.server_id
                != server_id by {
            assert(order.contains(k) <==> (d.contains(k) || k == last));
            assert(rest.push(last).contains(k) <==> (rest.contains(k) || k == last));
            assert(rest.contains(k) ==> d.contains(k));
        }
    }
}

/// The exit of a server keeps the invariant, and leaves nothing about the server behind.
pub proof fn lemma_clear_server_keeps_invariant(m: Model, server_id: u64)
    requires
        m.inv(),
    ensures
        m.clear_server(server_id).inv(),
        !m.clear_server(server_id).servers.dom().contains(server_id),
        forall|k: PullDiagnosticsKey| #[trigger]
            m.clear_server(server_id).keys.dom().contains(k) ==> k.server_id != server_id,
        !m.clear_server(server_id).inter_file_servers.contains(server_id),
{
    let next = m.clear_server(server_id);
    lemma_order_without(m.key_order, server_id);
    crate::collections::lemma_without_contains(m.inter_file_servers, server_id, server_id);
    assert forall|k: PullDiagnosticsKey| #[trigger]
        next.key_order.contains(k) <==> next.keys.dom().contains(k) by {
        assert(m.key_order.contains(k) <==> m.keys.dom().contains(k));
    }
    assert forall|s: u64| #[trigger] next.servers.dom().contains(s) implies next.server_ok(s) by {
        assert(m.servers.dom().contains(s));
        assert(m.server_ok(s));
        assert forall|k: PullDiagnosticsKey| #[trigger]
            next.servers[s].queue.contains(k) implies next.keys.dom().contains(k) by {
            assert(m.servers[s].queue.contains(k));
        }
    }
    assert forall|k: PullDiagnosticsKey| #[trigger] next.keys.dom().contains(k) implies next.key_ok(
        k,
    ) by {
        assert(m.keys.dom().contains(k));
        assert(m.key_ok(k));
    }
}

/// Decides which document is asked about next, on which server, and when.
pub struct PullDiagnosticsCoordinator {
    pub keys: IdMap<PullDiagnosticsKey, KeyState>,
    pub servers: IdMap<u64, ServerState>,
    pub debounced_documents: Vec<u64>,
    pub document_deadline: Option<u64>,
    pub inter_file_servers: Vec<u64>,
    pub inter_file_deadline: Option<u64>,
    /// The requests in flight that are to be cancelled, until somebody takes them.
    pub cancellations: Vec<PullDiagnosticsTarget>,
}

impl View for PullDiagnosticsCoordinator {
    type V = Model;

    open spec fn view(&self) -> Model {
        Model {
            keys: key_views(self.keys@),
            key_order: self.keys.order(),
            servers: server_views(self.servers@),
            documents: self.debounced_documents@,
            document_deadline: self.document_deadline,
            inter_file_servers: self.inter_file_servers@,
            inter_file_deadline: self.inter_file_deadline,
            cancellations: target_views(self.cancellations@),
        }
    }
}

/// A coordinator to which nothing has happened.
pub open spec fn quiet_model() -> Model {
    Model {
        keys: Map::empty(),
        key_order: seq![],
        servers: Map::empty(),
        documents: seq![],
        document_deadline: None,
        inter_file_servers: seq![],
        inter_file_deadline: None,
        cancellations: seq![],
    }
}

impl PullDiagnosticsCoordinator {
    /// The representation is sound, whatever the requests.
    pub open spec fn maps_ok(&self) -> bool {
        &&& self.keys.wf()
        &&& self.servers.wf()
        &&& forall|s: u64| #[trigger] self.servers@.dom().contains(s) ==> self.servers@[s].wf()
    }

    pub open spec fn wf(&self) -> bool {
        &&& self.maps_ok()
        &&& self@.inv()
    }

    pub fn new() -> (r: Self)
        ensures
            r.wf(),
            r@ == quiet_model(),
    {
        let r = PullDiagnosticsCoordinator {
            keys: IdMap::new(),
            servers: IdMap::new(),
            debounced_documents: Vec::new(),
            document_deadline: None,
            inter_file_servers: Vec::new(),
            inter_file_deadline: None,
            cancellations: Vec::new(),
        };
        assert(r@ =~= quiet_model());
        r
    }

    /// A document has changed.
    pub fn debounce_document(&mut self, document_id: u64, now: u64)
        requires
            old(self).wf(),
            now <= u64::MAX - DOCUMENT_DEBOUNCE,
        ensures
            final(self).wf(),
            final(self)@ == old(self)@.debounce_document(document_id, now),
    {
        insert_id(&mut self.debounced_documents, document_id);
        self.document_deadline = Some(now + DOCUMENT_DEBOUNCE);
        proof {
            lemma_same_requests_same_invariant(old(self)@, self@);
        }
    }

    /// A document has changed on servers whose files depend on one another.
    pub fn debounce_inter_file_sweep(&mut self, language_servers: &Vec<u64>, now: u64)
        requires
            old(self).wf(),
            now <= u64::MAX - INTER_FILE_SWEEP_DEBOUNCE,
        ensures
            final(self).wf(),
            final(self)@ == old(self)@.debounce_inter_file_sweep(language_servers@, now),
    {
        if language_servers.len() == 0 {
            return;
        }
        insert_ids(&mut self.inter_file_servers, language_servers);
        self.inter_file_deadline = Some(now + INTER_FILE_SWEEP_DEBOUNCE);
        proof {
            lemma_same_requests_same_invariant(old(self)@, self@);
        }
    }

    /// Puts a server without requests where there is none yet.
    fn ensure_server(&mut self, server_id: u64)
        requires
            old(self).maps_ok(),
        ensures
            final(self).maps_ok(),
            final(self)@ == old(self)@.with_server(server_id, old(self)@.server(server_id)),
            final(self).servers@.dom().contains(server_id),
            final(self).keys == old(self).keys,
    {
        if !self.servers.contains_key(server_id) {
            self.servers.insert(server_id, ServerState::new());
        }
        proof {
            assert(self@.servers =~= old(self)@.servers.insert(
                server_id,
                old(self)@.server(server_id),
            ));
            assert(self@ =~= old(self)@.with_server(server_id, old(self)@.server(server_id)));
        }
    }

    /// Puts the latest target of a key behind the request in flight for it, or into the queue.
    fn enqueue_key(&mut self, key: PullDiagnosticsKey)
        requires
            old(self).maps_ok(),
        ensures
            final(self).maps_ok(),
            final(self)@ == old(self)@.enqueue_key(key),
    {
        let target = match self.keys.get(key) {
            Some(state) => state.latest.copy(),
            None => {
                return;
            },
        };
        self.ensure_server(key.server_id);
        let ghost middle = *self;
        match self.servers.get_mut(key.server_id) {
            Some(server) => {
                let flies = match &server.in_flight {
                    Some(t) => t.key() == key,
                    None => false,
                };
                if flies {
                    server.trailing = Some(target);
                } else {
                    let priority = target.priority;
                    server.queue(key, priority);
                }
            },
            None => {},
        }
        proof {
            let sid = key.server_id;
            assert(middle@.server(sid) == old(self)@.server(sid));
            assert(self@.servers[sid] =~= old(self)@.enqueue_key(key).servers[sid]);
            assert(self.servers@ == middle.servers@.insert(sid, self.servers@[sid]));
            lemma_server_views_insert(middle.servers@, sid, self.servers@[sid]);
            assert(self@.servers =~= old(self)@.enqueue_key(key).servers);
            assert(self@ =~= old(self)@.enqueue_key(key));
        }
    }
}

/// What is found in a queue is a known key.
proof fn lemma_scan_finds_known(
    keys: Map<PullDiagnosticsKey, KeyStateView>,
    queue: Seq<PullDiagnosticsKey>,
    n: nat,
    now: u64,
)
    ensures
        match scan(keys, queue, n, now).1 {
            Some(key) => keys.dom().contains(key),
            None => true,
        },
    decreases n,
{
    if n > 0 && queue.len() > 0 {
        let key = queue[0];
        let rest = queue.skip(1);
        if !keys.dom().contains(key) {
            lemma_scan_finds_known(keys, rest, (n - 1) as nat, now);
        } else if waits(keys[key], now) {
            lemma_scan_finds_known(keys, rest.push(key), (n - 1) as nat, now);
        }
    }
}

/// The report of a request is passed on if the request was awaited and is still current.
pub open spec fn finish_events<R>(
    m: Model,
    target: TargetView,
    outcome: PullDiagnosticsRequestOutcome<R>,
    now: u64,
) -> Seq<EventView<R>> {
    let report: Seq<EventView<R>> = match outcome {
        PullDiagnosticsRequestOutcome::Response(response) => if m.awaits(target) && m.is_current(
            target,
        ) {
            seq![EventView::Response { target, response }]
        } else {
            seq![]
        },
        _ => seq![],
    };
    report + start(m.finish(target, outcome.end(), now).1)
}

/// What the passing of time releases: changed documents, servers to sweep, and due retries.
pub open spec fn tick_events<R>(m: Model, now: u64) -> Seq<EventView<R>> {
    let documents: Seq<EventView<R>> = if m.documents_due(now) && m.documents.len() > 0 {
        seq![EventView::QueueDocuments { document_ids: m.documents }]
    } else {
        seq![]
    };
    let sweep: Seq<EventView<R>> = if m.sweep_due(now) && m.inter_file_servers.len() > 0 {
        seq![EventView::QueueSweep { language_servers: m.inter_file_servers }]
    } else {
        seq![]
    };
    documents + sweep + starts(m.tick(now).1)
}

impl PullDiagnosticsCoordinator {
    /// Takes note of one target; returns whether it was news.
    fn schedule_one(&mut self, target: PullDiagnosticsTarget) -> (news: bool)
        requires
            old(self).maps_ok(),
        ensures
            final(self).maps_ok(),
            news == old(self)@.is_news(target@),
            final(self)@ == old(self)@.schedule_one(target@),
    {
        let key = target.key();
        let server_id: u64 = target.server_id;
        let news = match self.keys.get(key) {
            Some(state) => target.is_newer_than(&state.latest),
            None => true,
        };
        if !news {
            return false;
        }
        let superseded = match self.servers.get(server_id) {
            Some(server) => match &server.in_flight {
                Some(t) => if t.key() == key {
                    Some(t.copy())
                } else {
                    None
                },
                None => None,
            },
            None => None,
        };
        let state = KeyState::new(target);
        proof {
            lemma_key_views_insert(self.keys@, key, state);
        }
        self.keys.insert(key, state);
        assert(self@ =~= old(self)@.with_key(key, fresh_key(target@)));
        self.enqueue_key(key);
        let ghost middle = *self;
        if let Some(t) = superseded {
            self.cancellations.push(t);
            assert(target_views(self.cancellations@) =~= target_views(middle.cancellations@).push(t@));
        }
        assert(self@ =~= old(self)@.schedule_one(target@));
        true
    }

    /// If the server is idle, its next document is put in flight.
    fn start_next(&mut self, server_id: u64, now: u64) -> (r: Option<PullDiagnosticsTarget>)
        requires
            old(self).maps_ok(),
        ensures
            final(self).maps_ok(),
            final(self)@ == old(self)@.start_next(server_id, now).0,
            target_view(r) == old(self)@.start_next(server_id, now).1,
    {
        let ghost before = *self;
        let r = match self.servers.get_mut(server_id) {
            None => None,
            Some(server) => {
                if server.in_flight.is_some() {
                    None
                } else {
                    proof {
                        lemma_scan_finds_known(
                            key_views(before.keys@),
                            before.servers@[server_id]@.queue,
                            before.servers@[server_id]@.queue.len(),
                            now,
                        );
                    }
                    match server.take_ready(&self.keys, now) {
                        None => None,
                        Some(key) => {
                            match self.keys.get(key) {
                                Some(state) => {
                                    server.in_flight = Some(state.latest.copy());
                                    Some(state.latest.copy())
                                },
                                None => None,
                            }
                        },
                    }
                }
            },
        };
        proof {
            if before.servers@.dom().contains(server_id) {
                assert(self.servers@ == before.servers@.insert(
                    server_id,
                    self.servers@[server_id],
                ));
                lemma_server_views_insert(before.servers@, server_id, self.servers@[server_id]);
                if before.servers@[server_id].in_flight is Some {
                    assert(self@.servers =~= before@.servers);
                }
            }
            assert(self@ =~= before@.start_next(server_id, now).0);
        }
        r
    }

    /// Each of the servers that is idle takes its next document.
    fn start_all<R>(
        &mut self,
        servers: &Vec<u64>,
        now: u64,
        events: &mut Vec<PullDiagnosticsEvent<R>>,
    )
        requires
            old(self).maps_ok(),
        ensures
            final(self).maps_ok(),
            final(self)@ == old(self)@.start_all(servers@, now).0,
            event_views(final(events)@) == event_views(old(events)@) + starts(
                old(self)@.start_all(servers@, now).1,
            ),
    {
        let ghost m = self@;
        let mut i: usize = 0;
        assert(servers@.take(0) =~= seq![]);
        assert(event_views(events@) =~= event_views(old(events)@) + starts(seq![]));
        while i < servers.len()
            invariant
                i <= servers@.len(),
                self.maps_ok(),
                self@ == m.start_all(servers@.take(i as int), now).0,
                event_views(events@) == event_views(old(events)@) + starts(
                    m.start_all(servers@.take(i as int), now).1,
                ),
            decreases servers@.len() - i,
        {
            let ghost so_far = m.start_all(servers@.take(i as int), now);
            let ghost events_before = events@;
            let started = self.start_next(servers[i], now);
            i += 1;
            assert(servers@.take(i as int).drop_last() =~= servers@.take(i - 1));
            if let Some(target) = started {
                let event = PullDiagnosticsEvent::StartPullDiagnostics { target };
                events.push(event);
                proof {
                    assert(event_views(events@) =~= event_views(events_before).push(event@));
                    assert(starts::<R>(so_far.1.push(target@)) =~= starts::<R>(so_far.1).push(
                        event@,
                    ));
                    assert(event_views(events@) =~= event_views(old(events)@) + starts(
                        m.start_all(servers@.take(i as int), now).1,
                    ));
                }
            }
        }
        assert(servers@.take(i as int) =~= servers@);
    }

    /// Takes note of targets; servers that are idle start on them.
    pub fn schedule_targets<R>(&mut self, targets: Vec<PullDiagnosticsTarget>, now: u64) -> (events:
        Vec<PullDiagnosticsEvent<R>>)
        requires
            old(self).wf(),
        ensures
            final(self).wf(),
            ({
                let (m, affected) = old(self)@.schedule_all(target_views(targets@));
                final(self)@ == m.start_all(affected, now).0 && event_views(events@) == starts::<R>(
                    m.start_all(affected, now).1,
                )
            }),
            // Every server for which there was news has a request in flight; if it was idle, that
            // request was started.
            forall|i: int|
                0 <= i < targets@.len() && news_to(old(self)@.keys, (#[trigger] targets@[i])@) ==> {
                    let server = final(self)@.server(targets@[i].server_id);
                    &&& server.in_flight is Some
                    &&& old(self)@.server(targets@[i].server_id).in_flight is None ==> event_views(
                        events@,
                    ).contains(EventView::<R>::Start { target: server.in_flight->0 })
                },
    {
        let ghost m = self@;
        let ghost views = target_views(targets@);
        let mut affected: Vec<u64> = Vec::new();
        let mut i: usize = 0;
        assert(views.take(0) =~= seq![]);
        assert(affected@ =~= seq![]);
        while i < targets.len()
            invariant
                i <= targets@.len(),
                views == target_views(targets@),
                self.maps_ok(),
                (self@, affected@) == m.schedule_all(views.take(i as int)),
            decreases targets@.len() - i,
        {
            let target = targets[i].copy();
            let server_id: u64 = target.server_id;
            assert(views.take(i + 1).drop_last() =~= views.take(i as int));
            if self.schedule_one(target) {
                insert_id(&mut affected, server_id);
            }
            i += 1;
        }
        assert(views.take(i as int) =~= views);
        proof {
            lemma_schedule_all_keeps_invariant(m, views);
            lemma_start_all_keeps_invariant(self@, affected@, now);
        }
        let mut events: Vec<PullDiagnosticsEvent<R>> = Vec::new();
        self.start_all(&affected, now, &mut events);
        assert(event_views(events@) =~= starts::<R>(m.schedule_all(views).0.start_all(affected@, now).1));
        proof {
            let started = m.schedule_all(views).0.start_all(affected@, now).1;
            assert forall|i: int|
                0 <= i < targets@.len() && news_to(m.keys, (#[trigger] targets@[i])@) implies {
                let server = self@.server(targets@[i].server_id);
                &&& server.in_flight is Some
                &&& m.server(targets@[i].server_id).in_flight is None ==> event_views(
                    events@,
                ).contains(EventView::<R>::Start { target: server.in_flight->0 })
            } by {
                assert(views[i] == targets@[i]@);
                law_servers_with_news_are_at_work(m, views, now, i);
                let server = self@.server(targets@[i].server_id);
                if m.server(targets@[i].server_id).in_flight is None {
                    let k = started.index_of(server.in_flight->0);
                    assert(event_views(events@)[k] == EventView::<R>::Start {
                        target: server.in_flight->0,
                    });
                }
            }
        }
        events
    }

    /// Sets where the retries of a known key stand.
    fn set_retry(&mut self, key: PullDiagnosticsKey, attempt: u8, deadline: Option<u64>)
        requires
            old(self).maps_ok(),
            old(self)@.keys.dom().contains(key),
            old(self)@.key_order.contains(key),
        ensures
            final(self).maps_ok(),
            final(self)@ == old(self)@.with_key(
                key,
                (KeyStateView {
                    retry_attempt: attempt,
                    retry_deadline: deadline,
                    ..old(self)@.keys[key]
                }),
            ),
    {
        let ghost before = *self;
        if let Some(state) = self.keys.get_mut(key) {
            state.retry_attempt = attempt;
            state.retry_deadline = deadline;
        }
        proof {
            assert(self.keys@ == before.keys@.insert(key, self.keys@[key]));
            lemma_key_views_insert(before.keys@, key, self.keys@[key]);
            assert(self@ =~= before@.with_key(
                key,
                (KeyStateView {
                    retry_attempt: attempt,
                    retry_deadline: deadline,
                    ..before@.keys[key]
                }),
            ));
        }
    }

    /// A request has ended.
    pub fn finish_request<R>(
        &mut self,
        target: PullDiagnosticsTarget,
        outcome: PullDiagnosticsRequestOutcome<R>,
        now: u64,
    ) -> (events: Vec<PullDiagnosticsEvent<R>>)
        requires
            old(self).wf(),
            now <= u64::MAX - RETRY_MAX_DELAY,
        ensures
            final(self).wf(),
            final(self)@ == old(self)@.finish(target@, outcome.end(), now).0,
            event_views(events@) == finish_events(old(self)@, target@, outcome, now),
    {
        let ghost m = self@;
        let ghost view = target@;
        let ghost end = outcome.end();
        let mut events: Vec<PullDiagnosticsEvent<R>> = Vec::new();
        let key = target.key();
        let server_id: u64 = target.server_id;
        let awaited = match self.servers.get(server_id) {
            Some(server) => match &server.in_flight {
                Some(t) => t.same(&target),
                None => false,
            },
            None => false,
        };
        if !awaited {
            assert(event_views(events@) =~= finish_events(m, view, outcome, now));
            return events;
        }
        proof {
            assert(m.awaits(view));
            assert(m.server_ok(server_id));
            assert(m.key_order.contains(key) <==> m.keys.dom().contains(key));
            lemma_finish_keeps_invariant(m, view, end, now);
        }
        let mut trailing: Option<PullDiagnosticsTarget> = None;
        if let Some(server) = self.servers.get_mut(server_id) {
            server.in_flight = None;
            trailing = server.trailing.take();
        }
        proof {
            assert(self.servers@ == old(self).servers@.insert(server_id, self.servers@[server_id]));
            lemma_server_views_insert(old(self).servers@, server_id, self.servers@[server_id]);
            assert(self@ =~= m.landed(view));
        }
        let (is_current, attempt): (bool, u8) = match self.keys.get(key) {
            Some(state) => (state.latest.same(&target), state.retry_attempt),
            None => (false, 0),
        };
        let has_newer_target = trailing.is_some() || !is_current;
        assert(has_newer_target == m.has_newer(view));
        match outcome {
            PullDiagnosticsRequestOutcome::Response(response) => {
                self.set_retry(key, 0, None);
                if is_current {
                    let event = PullDiagnosticsEvent::PullDiagnosticsResponse { target, response };
                    events.push(event);
                    assert(event_views(events@) =~= seq![event@]);
                }
                if has_newer_target {
                    self.enqueue_key(key);
                }
            },
            PullDiagnosticsRequestOutcome::Failed(error) => {
                if should_retry(&error) {
                    if has_newer_target {
                        self.set_retry(key, 0, None);
                        self.enqueue_key(key);
                    } else {
                        let next: u8 = attempt.saturating_add(1);
                        if next <= RETRY_LIMIT {
                            let delay: u64 = retry_delay(next);
                            self.set_retry(key, next, Some(now + delay));
                        } else {
                            self.set_retry(key, next, None);
                        }
                    }
                } else if has_newer_target {
                    self.enqueue_key(key);
                }
            },
            PullDiagnosticsRequestOutcome::Abandoned => {
                if has_newer_target {
                    self.enqueue_key(key);
                }
            },
        }
        assert(self@ == m.settled(view, end, now));
        let ghost events_before = events@;
        let ghost settled = self@;
        let started = self.start_next(server_id, now);
        if let Some(target) = started {
            let event = PullDiagnosticsEvent::StartPullDiagnostics { target };
            events.push(event);
            assert(event_views(events@) =~= event_views(events_before).push(event@));
        }
        assert(event_views(events@) =~= finish_events(m, view, outcome, now));
        events
    }
}

impl Model {
    /// A moment at which something is due.
    pub open spec fn is_deadline(self, at: u64) -> bool {
        ||| self.document_deadline == Some(at)
        ||| self.inter_file_deadline == Some(at)
        ||| exists|k: PullDiagnosticsKey| #[trigger]
            self.keys.dom().contains(k) && self.keys[k].retry_deadline == Some(at)
    }
}

fn earlier(a: Option<u64>, b: Option<u64>) -> (r: Option<u64>)
    ensures
        match (a, b) {
            (Some(x), Some(y)) => r == Some(if x <= y { x } else { y }),
            (Some(x), None) => r == a,
            (None, _) => r == b,
        },
{
    match (a, b) {
        (Some(x), Some(y)) => if x <= y {
            Some(x)
        } else {
            Some(y)
        },
        (Some(x), None) => Some(x),
        (None, y) => y,
    }
}

impl PullDiagnosticsCoordinator {
    /// The next moment at which something is due, if anything is.
    pub fn next_deadline(&self) -> (r: Option<u64>)
        requires
            self.wf(),
        ensures
            match r {
                None => forall|at: u64| !self@.is_deadline(at),
                Some(at) => self@.is_deadline(at) && forall|other: u64|
                    self@.is_deadline(other) ==> at <= other,
            },
    {
        let mut best: Option<u64> = earlier(self.document_deadline, self.inter_file_deadline);
        let mut i: usize = 0;
        while i < self.keys.keys.len()
            invariant
                self.wf(),
                i <= self.keys.keys@.len(),
                match best {
                    None => self.document_deadline is None && self.inter_file_deadline is None
                        && forall|j: int|
                        0 <= j < i ==> (#[trigger] self.keys.values@[j]).retry_deadline is None,
                    Some(at) => {
                        &&& self@.is_deadline(at)
                        &&& forall|d: u64| self.document_deadline == Some(d) ==> at <= d
                        &&& forall|d: u64| self.inter_file_deadline == Some(d) ==> at <= d
                        &&& forall|j: int|
                            0 <= j < i && (#[trigger] self.keys.values@[j]).retry_deadline is Some
                                ==> at <= self.keys.values@[j].retry_deadline->0
                    },
                },
            decreases self.keys.keys@.len() - i,
        {
            let deadline = self.keys.values[i].retry_deadline;
            proof {
                let k = self.keys.keys@[i as int];
                assert(self.keys.keys@.contains(k));
                assert(self.keys.keys@.index_of(k) == i);
                assert(self@.keys.dom().contains(k));
                assert(self@.keys[k].retry_deadline == deadline);
                if deadline is Some {
                    assert(self@.is_deadline(deadline->0));
                }
            }
            best = earlier(best, deadline);
            i += 1;
        }
        proof {
            assert forall|other: u64| self@.is_deadline(other) implies best is Some && best->0
                <= other by {
                if self.document_deadline != Some(other) && self.inter_file_deadline != Some(
                    other,
                ) {
                    let k = choose|k: PullDiagnosticsKey| #[trigger]
                        self@.keys.dom().contains(k) && self@.keys[k].retry_deadline == Some(other);
                    let j = self.keys.keys@.index_of(k);
                    assert(self.keys.keys@.contains(k));
                    assert(self.keys.values@[j].retry_deadline == Some(other));
                }
            }
        }
        best
    }

    /// The keys whose retry is due.
    fn due_keys(&self, now: u64) -> (r: Vec<PullDiagnosticsKey>)
        requires
            self.maps_ok(),
        ensures
            r@ == self@.due(self@.key_order, now),
    {
        let mut due: Vec<PullDiagnosticsKey> = Vec::new();
        let mut i: usize = 0;
        assert(self@.key_order.take(0) =~= seq![]);
        assert(due@ =~= seq![]);
        while i < self.keys.keys.len()
            invariant
                self.maps_ok(),
                i <= self.keys.keys@.len(),
                due@ == self@.due(self@.key_order.take(i as int), now),
            decreases self.keys.keys@.len() - i,
        {
            let key = self.keys.keys[i];
            let deadline = self.keys.values[i].retry_deadline;
            proof {
                assert(self.keys.keys@.contains(key));
                assert(self.keys.keys@.index_of(key) == i);
                assert(self@.keys[key].retry_deadline == deadline);
                assert(self@.key_order.take(i + 1).drop_last() =~= self@.key_order.take(i as int));
            }
            if let Some(at) = deadline {
                if at <= now {
                    due.push(key);
                }
            }
            i += 1;
        }
        assert(self@.key_order.take(i as int) =~= self@.key_order);
        due
    }

    /// Time has come to `now`.
    pub fn handle_deadlines<R>(&mut self, now: u64) -> (events: Vec<PullDiagnosticsEvent<R>>)
        requires
            old(self).wf(),
        ensures
            final(self).wf(),
            final(self)@ == old(self)@.tick(now).0,
            event_views(events@) == tick_events::<R>(old(self)@, now),
    {
        let ghost m = self@;
        proof {
            lemma_tick_keeps_invariant(m, now);
        }
        let mut events: Vec<PullDiagnosticsEvent<R>> = Vec::new();
        let documents_due = match self.document_deadline {
            Some(at) => at <= now,
            None => false,
        };
        if documents_due {
            self.document_deadline = None;
            let mut document_ids: Vec<u64> = Vec::new();
            std::mem::swap(&mut document_ids, &mut self.debounced_documents);
            if document_ids.len() > 0 {
                let event = PullDiagnosticsEvent::QueuePullDiagnosticsForDocuments { document_ids };
                events.push(event);
                assert(event_views(events@) =~= seq![event@]);
            }
        }
        let ghost after_documents = events@;
        let sweep_due = match self.inter_file_deadline {
            Some(at) => at <= now,
            None => false,
        };
        if sweep_due {
            self.inter_file_deadline = None;
            let mut language_servers: Vec<u64> = Vec::new();
            std::mem::swap(&mut language_servers, &mut self.inter_file_servers);
            if language_servers.len() > 0 {
                let event = PullDiagnosticsEvent::QueuePullDiagnosticsInterFileSweep {
                    language_servers,
                };
                events.push(event);
                assert(event_views(events@) =~= event_views(after_documents).push(event@));
            }
        }
        let ghost released = self@;
        proof {
            let m1 = if m.documents_due(now) {
                Model { document_deadline: None, documents: seq![], ..m }
            } else {
                m
            };
            let m2 = if m.sweep_due(now) {
                Model { inter_file_deadline: None, inter_file_servers: seq![], ..m1 }
            } else {
                m1
            };
            assert(released =~= m2);
            lemma_same_requests_same_invariant(m, released);
        }
        let due = self.due_keys(now);
        let mut affected: Vec<u64> = Vec::new();
        let mut i: usize = 0;
        assert(due@.take(0) =~= seq![]);
        assert(affected@ =~= seq![]);
        proof {
            lemma_due(released, released.key_order, now);
        }
        while i < due.len()
            invariant
                i <= due@.len(),
                self.maps_ok(),
                released.inv(),
                due@ == released.due(released.key_order, now),
                due@.no_duplicates(),
                forall|k: PullDiagnosticsKey| #[trigger]
                    due@.contains(k) ==> released.key_order.contains(k)
                        && released.keys[k].retry_deadline is Some,
                (self@, affected@) == released.wake_all(due@.take(i as int)),
            decreases due@.len() - i,
        {
            let key = due[i];
            proof {
                let done = due@.take(i as int);
                assert(due@.take(i + 1).drop_last() =~= done);
                assert forall|k: PullDiagnosticsKey| #[trigger] done.contains(k) implies due@.contains(
                    k,
                ) by {
                    assert(due@[done.index_of(k)] == k);
                }
                lemma_wake_all_keeps_invariant(released, done);
                assert(due@.contains(key));
                assert(self@.keys.dom().contains(key));
                assert(self@.key_order.contains(key));
            }
            let attempt: u8 = match self.keys.get(key) {
                Some(state) => state.retry_attempt,
                None => 0,
            };
            self.set_retry(key, attempt, None);
            self.enqueue_key(key);
            insert_id(&mut affected, key.server_id);
            i += 1;
        }
        assert(due@.take(i as int) =~= due@);
        self.start_all(&affected, now, &mut events);
        proof {
            let documents: Seq<EventView<R>> = if m.documents_due(now) && m.documents.len() > 0 {
                seq![EventView::QueueDocuments { document_ids: m.documents }]
            } else {
                seq![]
            };
            assert(event_views(after_documents) =~= documents);
            assert(event_views(events@) =~= tick_events::<R>(m, now));
        }
        events
    }

    /// A language server has exited.
    pub fn clear_server(&mut self, server_id: u64)
        requires
            old(self).wf(),
        ensures
            final(self).wf(),
            final(self)@ == old(self)@.clear_server(server_id),
    {
        let ghost m = self@;
        proof {
            lemma_clear_server_keeps_invariant(m, server_id);
        }
        let removed = self.servers.remove(server_id);
        if let Some(server) = removed {
            if let Some(t) = server.in_flight {
                let ghost before = self.cancellations@;
                self.cancellations.push(t);
                assert(target_views(self.cancellations@) =~= target_views(before).push(t@));
            }
        }
        self.forget_keys(server_id);
        remove_id(&mut self.inter_file_servers, server_id);
        if self.inter_file_servers.len() == 0 {
            self.inter_file_deadline = None;
        }
        proof {
            assert(self@.servers =~= m.clear_server(server_id).servers);
            assert(self@ =~= m.clear_server(server_id));
        }
    }

    /// Forgets the documents of a server.
    fn forget_keys(&mut self, server_id: u64)
        requires
            old(self).maps_ok(),
        ensures
            final(self).maps_ok(),
            final(self)@ == (Model {
                keys: old(self)@.keys.restrict(
                    Set::new(|k: PullDiagnosticsKey| k.server_id != server_id),
                ),
                key_order: Model::order_without(old(self)@.key_order, server_id),
                ..old(self)@
            }),
    {
        let ghost m = self@;
        let mut doomed: Vec<PullDiagnosticsKey> = Vec::new();
        let mut i: usize = 0;
        while i < self.keys.keys.len()
            invariant
                *self == *old(self),
                i <= self.keys.keys@.len(),
                forall|k: PullDiagnosticsKey| #[trigger]
                    doomed@.contains(k) <==> k.server_id == server_id && self.keys.keys@.take(
                        i as int,
                    ).contains(k),
            decreases self.keys.keys@.len() - i,
        {
            let key = self.keys.keys[i];
            let ghost before = doomed@;
            let ghost seen = self.keys.keys@.take(i as int);
            if key.server_id == server_id {
                insert_id(&mut doomed, key);
            }
            i += 1;
            proof {
                let now_seen = self.keys.keys@.take(i as int);
                assert(now_seen =~= seen.push(key));
                assert forall|k: PullDiagnosticsKey| now_seen.contains(k) <==> (seen.contains(k)
                    || k == key) by {
                    if seen.contains(k) {
                        assert(now_seen[seen.index_of(k)] == k);
                    }
                    if now_seen.contains(k) {
                        let j = now_seen.index_of(k);
                        if j < seen.len() {
                            assert(seen[j] == k);
                        }
                    }
                    assert(now_seen[seen.len() as int] == key);
                }
                assert forall|k: PullDiagnosticsKey| #[trigger]
                    doomed@.contains(k) <==> k.server_id == server_id && now_seen.contains(k) by {
                    crate::collections::lemma_inserted_contains(before, key, k);
                    assert(before.contains(k) <==> k.server_id == server_id && seen.contains(k));
                }
            }
        }
        assert(self.keys.keys@.take(i as int) =~= self.keys.keys@);
        let mut j: usize = 0;
        while j < doomed.len()
            invariant
                j <= doomed@.len(),
                self.maps_ok(),
                self.servers == old(self).servers,
                self.debounced_documents == old(self).debounced_documents,
                self.document_deadline == old(self).document_deadline,
                self.inter_file_servers == old(self).inter_file_servers,
                self.inter_file_deadline == old(self).inter_file_deadline,
                self.cancellations == old(self).cancellations,
                forall|k: PullDiagnosticsKey| #[trigger]
                    doomed@.contains(k) <==> k.server_id == server_id && old(self).keys@.dom().contains(k),
                forall|k: PullDiagnosticsKey| #[trigger]
                    self.keys@.dom().contains(k) <==> old(self).keys@.dom().contains(k)
                        && !doomed@.take(j as int).contains(k),
                forall|k: PullDiagnosticsKey| #[trigger]
                    self.keys@.dom().contains(k) ==> self.keys@[k] == old(self).keys@[k],
                Model::order_without(self.keys.order(), server_id) == Model::order_without(
                    old(self).keys.order(),
                    server_id,
                ),
            decreases doomed@.len() - j,
        {
            let key = doomed[j];
            let ghost order = self.keys.order();
            let ghost gone = doomed@.take(j as int);
            assert(doomed@.contains(key));
            self.keys.remove(key);
            j += 1;
            proof {
                lemma_order_without_one(order, key);
                let now_gone = doomed@.take(j as int);
                assert(now_gone =~= gone.push(key));
                assert forall|k: PullDiagnosticsKey| now_gone.contains(k) <==> (gone.contains(k)
                    || k == key) by {
                    if gone.contains(k) {
                        assert(now_gone[gone.index_of(k)] == k);
                    }
                    if now_gone.contains(k) {
                        let x = now_gone.index_of(k);
                        if x < gone.len() {
                            assert(gone[x] == k);
                        }
                    }
                    assert(now_gone[gone.len() as int] == key);
                }
            }
        }
        proof {
            assert(doomed@.take(j as int) =~= doomed@);
            assert forall|k: PullDiagnosticsKey| #[trigger] self.keys.order().contains(k) implies k.server_id
                != server_id by {
                assert(self.keys@.dom().contains(k));
            }
            lemma_order_without_none(self.keys.order(), server_id);
            assert(self@.keys =~= m.keys.restrict(
                Set::new(|k: PullDiagnosticsKey| k.server_id != server_id),
            ));
        }
    }

    /// Hands over the requests that are to be cancelled.
    pub fn take_cancellations(&mut self) -> (r: Vec<PullDiagnosticsTarget>)
        requires
            old(self).wf(),
        ensures
            final(self).wf(),
            target_views(r@) == old(self)@.cancellations,
            final(self)@ == (Model { cancellations: seq![], ..old(self)@ }),
    {
        let mut taken: Vec<PullDiagnosticsTarget> = Vec::new();
        std::mem::swap(&mut taken, &mut self.cancellations);
        proof {
            assert(target_views(self.cancellations@) =~= seq![]);
            lemma_same_requests_same_invariant(old(self)@, self@);
        }
        taken
    }
}

proof fn lemma_order_without_one(order: Seq<PullDiagnosticsKey>, key: PullDiagnosticsKey)
    ensures
        Model::order_without(collections::without(order, key), key.server_id) == Model::order_without(
            order,
            key.server_id,
        ),
    decreases order.len(),
{
    if order.len() > 0 {
        lemma_order_without_one(order.drop_last(), key);
        if order.last() != key {
            let w = collections::without(order.drop_last(), key);
            assert(collections::without(order, key).drop_last() =~= w);
            assert(collections::without(order, key).last() == order.last());
        }
    }
}

proof fn lemma_order_without_none(order: Seq<PullDiagnosticsKey>, server_id: u64)
    requires
        forall|k: PullDiagnosticsKey| #[trigger] order.contains(k) ==> k.server_id != server_id,
    ensures
        Model::order_without(order, server_id) == order,
    decreases order.len(),
{
    if order.len() > 0 {
        let d = order.drop_last();
        assert forall|k: PullDiagnosticsKey| #[trigger] d.contains(k) implies k.server_id
            != server_id by {
            assert(order[d.index_of(k)] == k);
            assert(order.contains(k));
        }
        lemma_order_without_none(d, server_id);
        assert(order.contains(order.last())) by {
            assert(order[order.len() - 1] == order.last());
        }
        assert(d.push(order.last()) =~= order);
    }
}

/// What has been asked of the coordinator and not been looked at yet. Requests for the same
/// document coalesce into the newest.
pub struct PendingPullDiagnostics<R> {
    pub schedules: IdMap<PullDiagnosticsKey, PullDiagnosticsTarget>,
    pub completions: VecDeque<(PullDiagnosticsTarget, PullDiagnosticsRequestOutcome<R>)>,
    pub exited_servers: Vec<u64>,
    pub documents: Vec<u64>,
    pub inter_file_servers: Vec<u64>,
}

/// The schedules with a target in them: the newest of its document stays.
pub open spec fn coalesced(
    schedules: Map<PullDiagnosticsKey, TargetView>,
    target: TargetView,
) -> Map<PullDiagnosticsKey, TargetView> {
    if schedules.dom().contains(target.key()) && !target.is_newer_than(schedules[target.key()]) {
        schedules
    } else {
        schedules.insert(target.key(), target)
    }
}

pub open spec fn coalesced_all(
    schedules: Map<PullDiagnosticsKey, TargetView>,
    targets: Seq<TargetView>,
) -> Map<PullDiagnosticsKey, TargetView>
    decreases targets.len(),
{
    if targets.len() == 0 {
        schedules
    } else {
        coalesced(coalesced_all(schedules, targets.drop_last()), targets.last())
    }
}

pub open spec fn schedule_views(schedules: Map<PullDiagnosticsKey, PullDiagnosticsTarget>) -> Map<
    PullDiagnosticsKey,
    TargetView,
> {
    schedules.map_values(|t: PullDiagnosticsTarget| t@)
}

pub open spec fn completion_views<R>(
    completions: Seq<(PullDiagnosticsTarget, PullDiagnosticsRequestOutcome<R>)>,
) -> Seq<(TargetView, PullDiagnosticsRequestOutcome<R>)> {
    completions.map_values(
        |c: (PullDiagnosticsTarget, PullDiagnosticsRequestOutcome<R>)| (c.0@, c.1),
    )
}

impl<R> PendingPullDiagnostics<R> {
    pub open spec fn wf(&self) -> bool {
        self.schedules.wf()
    }

    pub fn new() -> (r: Self)
        ensures
            r.wf(),
            r.schedules@ == Map::<PullDiagnosticsKey, PullDiagnosticsTarget>::empty(),
            r.completions@.len() == 0,
            r.exited_servers@.len() == 0,
            r.documents@.len() == 0,
            r.inter_file_servers@.len() == 0,
    {
        PendingPullDiagnostics {
            schedules: IdMap::new(),
            completions: VecDeque::new(),
            exited_servers: Vec::new(),
            documents: Vec::new(),
            inter_file_servers: Vec::new(),
        }
    }

    /// Asks for diagnostics of targets; returns whether the coordinator is to be woken.
    pub fn schedule(&mut self, targets: Vec<PullDiagnosticsTarget>) -> (wake: bool)
        requires
            old(self).wf(),
        ensures
            final(self).wf(),
            wake == (targets@.len() > 0),
            schedule_views(final(self).schedules@) == coalesced_all(
                schedule_views(old(self).schedules@),
                target_views(targets@),
            ),
            final(self).completions == old(self).completions,
            final(self).exited_servers == old(self).exited_servers,
            final(self).documents == old(self).documents,
            final(self).inter_file_servers == old(self).inter_file_servers,
    {
        let ghost start = schedule_views(self.schedules@);
        let ghost views = target_views(targets@);
        let mut i: usize = 0;
        assert(views.take(0) =~= seq![]);
        while i < targets.len()
            invariant
                i <= targets@.len(),
                views == target_views(targets@),
                self.wf(),
                schedule_views(self.schedules@) == coalesced_all(start, views.take(i as int)),
                self.completions == old(self).completions,
                self.exited_servers == old(self).exited_servers,
                self.documents == old(self).documents,
                self.inter_file_servers == old(self).inter_file_servers,
            decreases targets@.len() - i,
        {
            let target = targets[i].copy();
            let key = target.key();
            let ghost before = self.schedules@;
            assert(views.take(i + 1).drop_last() =~= views.take(i as int));
            let news = match self.schedules.get(key) {
                Some(known) => target.is_newer_than(known),
                None => true,
            };
            if news {
                self.schedules.insert(key, target);
                assert(schedule_views(self.schedules@) =~= schedule_views(before).insert(
                    key,
                    target@,
                ));
            }
            i += 1;
        }
        assert(views.take(i as int) =~= views);
        targets.len() > 0
    }

    /// Reports the end of a request.
    pub fn finish(
        &mut self,
        target: PullDiagnosticsTarget,
        outcome: PullDiagnosticsRequestOutcome<R>,
    )
        ensures
            final(self).completions@ == old(self).completions@.push((target, outcome)),
            final(self).schedules == old(self).schedules,
            final(self).exited_servers == old(self).exited_servers,
            final(self).documents == old(self).documents,
            final(self).inter_file_servers == old(self).inter_file_servers,
    {
        self.completions.push_back((target, outcome));
    }

    /// Reports the exit of a server.
    pub fn server_exited(&mut self, server_id: u64)
        ensures
            final(self).exited_servers@ == collections::inserted(old(self).exited_servers@, server_id),
            final(self).schedules == old(self).schedules,
            final(self).completions == old(self).completions,
            final(self).documents == old(self).documents,
            final(self).inter_file_servers == old(self).inter_file_servers,
    {
        insert_id(&mut self.exited_servers, server_id);
    }

    /// Reports a changed document.
    pub fn debounce_document(&mut self, document_id: u64)
        ensures
            final(self).documents@ == collections::inserted(old(self).documents@, document_id),
            final(self).schedules == old(self).schedules,
            final(self).completions == old(self).completions,
            final(self).exited_servers == old(self).exited_servers,
            final(self).inter_file_servers == old(self).inter_file_servers,
    {
        insert_id(&mut self.documents, document_id);
    }

    /// Reports a change on servers whose files depend on one another; returns whether the
    /// coordinator is to be woken.
    pub fn debounce_inter_file_sweep(&mut self, language_servers: &Vec<u64>) -> (wake: bool)
        ensures
            wake == (language_servers@.len() > 0),
            final(self).inter_file_servers@ == collections::inserted_all(
                old(self).inter_file_servers@,
                language_servers@,
            ),
            final(self).schedules == old(self).schedules,
            final(self).completions == old(self).completions,
            final(self).exited_servers == old(self).exited_servers,
            final(self).documents == old(self).documents,
    {
        insert_ids(&mut self.inter_file_servers, language_servers);
        language_servers.len() > 0
    }

    /// Hands over everything that is pending.
    pub fn take(&mut self) -> (r: Self)
        requires
            old(self).wf(),
        ensures
            r == *old(self),
            final(self).wf(),
            final(self).schedules@ == Map::<PullDiagnosticsKey, PullDiagnosticsTarget>::empty(),
            final(self).completions@.len() == 0,
            final(self).exited_servers@.len() == 0,
            final(self).documents@.len() == 0,
            final(self).inter_file_servers@.len() == 0,
    {
        let mut taken = PendingPullDiagnostics::new();
        std::mem::swap(&mut taken, self);
        taken
    }
}

impl Model {
    pub open spec fn clear_all(self, servers: Seq<u64>) -> Model
        decreases servers.len(),
    {
        if servers.len() == 0 {
            self
        } else {
            self.clear_all(servers.drop_last()).clear_server(servers.last())
        }
    }

    pub open spec fn debounce_all(self, documents: Seq<u64>, now: u64) -> Model
        decreases documents.len(),
    {
        if documents.len() == 0 {
            self
        } else {
            self.debounce_all(documents.drop_last(), now).debounce_document(documents.last(), now)
        }
    }
}

/// The ends of requests, taken in turn.
pub open spec fn finish_all<R>(
    m: Model,
    completions: Seq<(TargetView, PullDiagnosticsRequestOutcome<R>)>,
    now: u64,
) -> (Model, Seq<EventView<R>>)
    decreases completions.len(),
{
    if completions.len() == 0 {
        (m, seq![])
    } else {
        let (before, events) = finish_all(m, completions.drop_last(), now);
        let (target, outcome) = completions.last();
        (
            before.finish(target, outcome.end(), now).0,
            events + finish_events(before, target, outcome, now),
        )
    }
}

/// What a coordinator makes of what is pending: exits come first, then schedules, then the ends
/// of requests, then the debounces.
pub open spec fn woken<R>(m: Model, pending: PendingPullDiagnostics<R>, now: u64) -> (
    Model,
    Seq<EventView<R>>,
) {
    let m = m.clear_all(pending.exited_servers@);
    let (m, affected) = m.schedule_all(target_views(pending.schedules.values@));
    let (m, started) = m.start_all(affected, now);
    let (m, finished) = finish_all(m, completion_views(pending.completions@), now);
    let m = m.debounce_all(pending.documents@, now);
    (
        m.debounce_inter_file_sweep(pending.inter_file_servers@, now),
        starts::<R>(started) + finished,
    )
}

impl PullDiagnosticsCoordinator {
    /// Looks at everything that is pending.
    pub fn apply_pending<R>(&mut self, pending: PendingPullDiagnostics<R>, now: u64) -> (events: Vec<
        PullDiagnosticsEvent<R>,
    >)
        requires
            old(self).wf(),
            pending.wf(),
            now <= u64::MAX - RETRY_MAX_DELAY,
        ensures
            final(self).wf(),
            final(self)@ == woken(old(self)@, pending, now).0,
            event_views(events@) == woken(old(self)@, pending, now).1,
    {
        let ghost m = self@;
        let PendingPullDiagnostics {
            schedules,
            mut completions,
            exited_servers,
            documents,
            inter_file_servers,
        } = pending;
        let mut i: usize = 0;
        assert(exited_servers@.take(0) =~= seq![]);
        while i < exited_servers.len()
            invariant
                i <= exited_servers@.len(),
                self.wf(),
                self@ == m.clear_all(exited_servers@.take(i as int)),
            decreases exited_servers@.len() - i,
        {
            assert(exited_servers@.take(i + 1).drop_last() =~= exited_servers@.take(i as int));
            self.clear_server(exited_servers[i]);
            i += 1;
        }
        assert(exited_servers@.take(i as int) =~= exited_servers@);
        let mut events: Vec<PullDiagnosticsEvent<R>> = self.schedule_targets(schedules.values, now);
        let ghost after = self@;
        let ghost started = event_views(events@);
        let ghost all = completion_views(completions@);
        let ghost mut done: int = 0;
        assert(all.take(0) =~= seq![]);
        assert(all.skip(0) =~= all);
        assert(event_views(events@) =~= started + finish_all(after, all.take(0), now).1);
        while completions.len() > 0
            invariant
                self.wf(),
                now <= u64::MAX - RETRY_MAX_DELAY,
                0 <= done <= all.len(),
                completion_views(completions@) == all.skip(done),
                self@ == finish_all(after, all.take(done), now).0,
                event_views(events@) == started + finish_all(after, all.take(done), now).1,
            decreases completions@.len(),
        {
            let ghost rest = completions@;
            if let Some((target, outcome)) = completions.pop_front() {
                let ghost events_before = event_views(events@);
                proof {
                    assert(completion_views(rest)[0] == (target@, outcome));
                    assert(all.skip(done).len() == rest.len());
                    assert(all.skip(done)[0] == all[done]);
                    assert(all[done] == (target@, outcome));
                    assert(all.take(done + 1).drop_last() =~= all.take(done));
                    assert(all.take(done + 1).last() == all[done]);
                }
                let mut more = self.finish_request(target, outcome, now);
                let ghost more_views = event_views(more@);
                let ghost old_events = events@;
                let ghost more_seq = more@;
                events.append(&mut more);
                proof {
                    assert(events@ =~= old_events + more_seq);
                    assert(event_views(events@) =~= events_before + more_views);
                    assert(completions@ =~= rest.skip(1));
                    assert forall|i: int| 0 <= i < completions@.len() implies completion_views(
                        completions@,
                    )[i] == all.skip(done + 1)[i] by {
                        assert(completion_views(rest)[i + 1] == all.skip(done)[i + 1]);
                    }
                    assert(completion_views(completions@) =~= all.skip(done + 1));
                    done = done + 1;
                    assert(event_views(events@) =~= started + finish_all(
                        after,
                        all.take(done),
                        now,
                    ).1);
                }
            }
        }
        assert(all.take(done) =~= all) by {
            assert(all.skip(done).len() == 0);
        }
        let ghost finished = self@;
        let mut j: usize = 0;
        assert(documents@.take(0) =~= seq![]);
        while j < documents.len()
            invariant
                j <= documents@.len(),
                self.wf(),
                now <= u64::MAX - RETRY_MAX_DELAY,
                self@ == finished.debounce_all(documents@.take(j as int), now),
            decreases documents@.len() - j,
        {
            assert(documents@.take(j + 1).drop_last() =~= documents@.take(j as int));
            self.debounce_document(documents[j], now);
            j += 1;
        }
        assert(documents@.take(j as int) =~= documents@);
        self.debounce_inter_file_sweep(&inter_file_servers, now);
        events
    }
}

/// A target that is not newer than the latest known one changes nothing.
pub proof fn law_stale_targets_are_ignored(m: Model, target: TargetView)
    requires
        m.keys.dom().contains(target.key()),
        !target.is_newer_than(m.keys[target.key()].latest),
    ensures
        m.schedule_one(target) == m,
{
}

/// News about the document in flight cancels the request and trails behind it, and the queue
/// stays as it was.
pub proof fn law_news_in_flight_trails(m: Model, target: TargetView)
    requires
        m.inv(),
        m.is_news(target),
        m.flies(target.key()),
    ensures
        ({
            let next = m.schedule_one(target);
            let server = next.server(target.server_id);
            &&& server.trailing == Some(target)
            &&& server.in_flight == m.server(target.server_id).in_flight
            &&& server.queue == m.server(target.server_id).queue
            &&& next.cancellations.last() == m.server(target.server_id).in_flight->0
        }),
{
}

/// A superseded request that is given up is followed by the latest target of its document, at
/// once if that is interactive, and its retries start over.
pub proof fn law_superseded_request_is_followed_by_the_latest(m: Model, target: TargetView, now: u64)
    requires
        m.inv(),
        m.awaits(target),
        m.server(target.server_id).trailing is Some,
        m.server(target.server_id).trailing->0.priority == PullDiagnosticsPriority::Interactive,
    ensures
        ({
            let (next, started) = m.finish(target, RequestEnd::Retryable, now);
            &&& started == m.server(target.server_id).trailing
            &&& next.keys[target.key()].retry_attempt == 0
            &&& next.keys[target.key()].retry_deadline is None
        }),
{
    let key = target.key();
    assert(m.server_ok(target.server_id));
    assert(m.key_ok(key));
    let settled = m.settled(target, RequestEnd::Retryable, now);
    let queue = settled.servers[target.server_id].queue;
    assert(queue[0] == key);
    assert(settled.keys[key].retry_deadline is None);
    assert(scan(settled.keys, queue, queue.len(), now).1 == Some(key));
}

/// A request is retried at most a bounded number of times: after that many failures nothing is
/// due for its document until there is news.
pub proof fn law_retries_are_bounded(m: Model, target: TargetView, now: u64)
    requires
        m.inv(),
        m.awaits(target),
        !m.has_newer(target),
        now <= u64::MAX - RETRY_MAX_DELAY,
    ensures
        ({
            let state = m.settled(target, RequestEnd::Retryable, now).keys[target.key()];
            &&& state.retry_attempt == m.keys[target.key()].retry_attempt + 1
            &&& state.retry_attempt <= RETRY_LIMIT + 1
            &&& state.retry_deadline is None <==> state.retry_attempt == RETRY_LIMIT + 1
            &&& state.retry_deadline is Some ==> state.retry_deadline->0 == now + backoff(
                state.retry_attempt,
            )
        }),
{
    assert(m.server_ok(target.server_id));
    assert(m.key_ok(target.key()));
    law_backoff_grows_to_its_limit(state_attempt(m, target));
}

spec fn state_attempt(m: Model, target: TargetView) -> u8 {
    (m.keys[target.key()].retry_attempt + 1) as u8
}

/// The delay doubles from one attempt to the next until it reaches its limit, and stays there.
pub proof fn law_backoff_grows_to_its_limit(attempt: u8)
    ensures
        RETRY_BASE_DELAY <= backoff(attempt) <= RETRY_MAX_DELAY,
        1 <= attempt < 5 ==> backoff((attempt + 1) as u8) == 2 * backoff(attempt),
        attempt >= 5 ==> backoff(attempt) == RETRY_MAX_DELAY,
{
    vstd::arithmetic::power2::lemma2_to64();
    if attempt > 5 {
        let doublings: nat = if attempt <= 16 {
            (attempt - 1) as nat
        } else {
            15
        };
        vstd::arithmetic::power2::lemma_pow2_strictly_increases(4, doublings);
    }
}

/// The target says more than is known of its document: that is nothing, or an earlier generation,
/// or an earlier version of the same generation.
pub open spec fn news_to(keys: Map<PullDiagnosticsKey, KeyStateView>, target: TargetView) -> bool {
    let key = PullDiagnosticsKey { server_id: target.server_id, document_id: target.document_id };
    keys.dom().contains(key) ==> {
        ||| keys[key].latest.generation < target.generation
        ||| keys[key].latest.generation == target.generation && keys[key].latest.version
            < target.version
    }
}

/// The document is being asked about, or waits for that.
pub open spec fn asked(m: Model, key: PullDiagnosticsKey) -> bool {
    &&& m.servers.dom().contains(key.server_id)
    &&& {
        ||| m.servers[key.server_id].queue.contains(key)
        ||| m.servers[key.server_id].in_flight matches Some(target) && target.server_id
            == key.server_id && target.document_id == key.document_id
    }
}

/// A server with something to ask is asking.
pub open spec fn at_work(m: Model) -> bool {
    forall|s: u64|
        (#[trigger] m.servers.dom().contains(s)) && m.servers[s].in_flight is None
            ==> m.servers[s].queue.len() == 0
}

/// What taking note of targets does to servers and documents.
spec fn scheduled(m: Model, targets: Seq<TargetView>) -> bool {
    let (n, affected) = m.schedule_all(targets);
    &&& n.inv()
    &&& affected.no_duplicates()
    &&& forall|s: u64| (#[trigger] n.server(s)).in_flight == m.server(s).in_flight
    &&& forall|s: u64| #[trigger]
        affected.contains(s) ==> n.servers.dom().contains(s) && (
        n.servers[s].in_flight is Some || n.servers[s].queue.len() > 0)
    &&& forall|s: u64|
        !(#[trigger] affected.contains(s)) ==> n.servers.dom().contains(s)
            == m.servers.dom().contains(s) && n.servers[s] == m.servers[s]
    &&& forall|s: u64| #[trigger]
        affected.contains(s) ==> exists|i: int|
            0 <= i < targets.len() && (#[trigger] targets[i]).server_id == s
    &&& forall|i: int|
        0 <= i < targets.len() && news_to(m.keys, #[trigger] targets[i])
            ==> affected.contains(targets[i].server_id)
    &&& forall|k: PullDiagnosticsKey| #[trigger]
        m.keys.dom().contains(k) ==> n.keys.dom().contains(k)
            && !m.keys[k].latest.is_newer_than(n.keys[k].latest)
    &&& forall|i: int|
        0 <= i < targets.len() ==> n.keys.dom().contains((#[trigger] targets[i]).key())
            && !targets[i].is_newer_than(n.keys[targets[i].key()].latest)
    &&& forall|k: PullDiagnosticsKey| #[trigger]
        n.keys.dom().contains(k) ==> {
            ||| m.keys.dom().contains(k) && n.keys[k] == m.keys[k]
            ||| affected.contains(k.server_id) && asked(n, k) && targets.contains(
                n.keys[k].latest,
            ) && n.keys[k].retry_attempt == 0 && n.keys[k].retry_deadline is None
        }
    &&& forall|k: PullDiagnosticsKey| #[trigger] asked(m, k) ==> asked(n, k)
}

proof fn lemma_scheduled(m: Model, targets: Seq<TargetView>)
    requires
        m.inv(),
    ensures
        scheduled(m, targets),
    decreases targets.len(),
{
    if targets.len() > 0 {
        let front = targets.drop_last();
        lemma_scheduled(m, front);
        lemma_schedule_all_keeps_invariant(m, targets);
        assert(targets[targets.len() - 1] == targets.last());
        assert forall|i: int| 0 <= i < front.len() implies #[trigger] targets[i] == front[i] by {}
        lemma_one_more_scheduled(m, targets);
    }
}

/// What the last of several targets does to servers and documents.
proof fn lemma_one_more_scheduled(m: Model, targets: Seq<TargetView>)
    requires
        targets.len() > 0,
        m.schedule_all(targets).0.inv(),
        scheduled(m, targets.drop_last()),
    ensures
        scheduled(m, targets),
{
    let front = targets.drop_last();
    let t = targets.last();
    let (n, affected) = m.schedule_all(targets);
    let (b, before) = m.schedule_all(front);
    assert(targets[targets.len() - 1] == t);
    assert forall|x: TargetView| front.contains(x) implies targets.contains(x) by {
        assert(targets[front.index_of(x)] == x);
    }
    assert forall|i: int| 0 <= i < front.len() implies #[trigger] targets[i] == front[i] by {}
    let sid = t.server_id;
    let key = t.key();
    if b.is_news(t) {
        collections::lemma_inserted_no_duplicates(before, sid);
        assert forall|s: u64| #[trigger] affected.contains(s) <==> before.contains(s) || s
            == sid by {
            collections::lemma_inserted_contains(before, sid, s);
        }
        let queue = enqueued(b.server(sid).queue, key, t.priority);
        assert forall|k: PullDiagnosticsKey| #[trigger]
            queue.contains(k) <==> b.server(sid).queue.contains(k) || k == key by {
            lemma_enqueued_contains(b.server(sid).queue, key, t.priority, k);
        }
        assert(queue.contains(key));
        assert(queue.len() > 0);
        assert(b.with_key(key, fresh_key(t)).server(sid) == b.server(sid));
        assert(asked(n, key));
        assert forall|k: PullDiagnosticsKey| #[trigger] asked(b, k) implies asked(n, k) by {}
    } else {
        assert(n == b && affected == before);
    }
    assert forall|s: u64| (#[trigger] n.server(s)).in_flight == m.server(s).in_flight by {
        assert(b.server(s).in_flight == m.server(s).in_flight);
    }
    assert forall|s: u64| #[trigger] affected.contains(s) implies n.servers.dom().contains(s) && (
    n.servers[s].in_flight is Some || n.servers[s].queue.len() > 0) by {
        if s != sid || !b.is_news(t) {
            assert(before.contains(s));
        }
    }
    assert forall|s: u64| #[trigger] affected.contains(s) implies exists|i: int|
        0 <= i < targets.len() && (#[trigger] targets[i]).server_id == s by {
        if before.contains(s) {
            let i = choose|i: int| 0 <= i < front.len() && (#[trigger] front[i]).server_id == s;
            assert(targets[i].server_id == s);
        }
    }
    assert forall|i: int|
        0 <= i < targets.len() && news_to(m.keys, #[trigger] targets[i]) implies affected.contains(
        targets[i].server_id,
    ) by {
        if i < front.len() {
            assert(news_to(m.keys, front[i]));
            assert(before.contains(front[i].server_id));
        } else {
            assert(targets[i] == t);
            if !b.is_news(t) {
                assert(b.keys.dom().contains(key));
                assert(!t.is_newer_than(b.keys[key].latest));
            }
        }
    }
    assert forall|i: int| 0 <= i < targets.len() implies n.keys.dom().contains(
        (#[trigger] targets[i]).key(),
    ) && !targets[i].is_newer_than(n.keys[targets[i].key()].latest) by {
        if i < front.len() {
            assert(b.keys.dom().contains(front[i].key()));
        }
    }
    assert forall|k: PullDiagnosticsKey| #[trigger] n.keys.dom().contains(k) implies {
        ||| m.keys.dom().contains(k) && n.keys[k] == m.keys[k]
        ||| affected.contains(k.server_id) && asked(n, k) && targets.contains(n.keys[k].latest)
            && n.keys[k].retry_attempt == 0 && n.keys[k].retry_deadline is None
    } by {
        if k != key || !b.is_news(t) {
            assert(b.keys.dom().contains(k));
            assert(n.keys[k] == b.keys[k]);
        }
    }
}

/// What letting servers take their next documents does.
proof fn lemma_started(m: Model, servers: Seq<u64>, now: u64)
    requires
        m.inv(),
        servers.no_duplicates(),
        forall|s: u64| #[trigger] servers.contains(s) ==> m.servers.dom().contains(s),
    ensures
        ({
            let (after, started) = m.start_all(servers, now);
            &&& after.inv()
            &&& after.keys == m.keys
            &&& after.cancellations == m.cancellations
            &&& after.servers.dom() == m.servers.dom()
            &&& forall|s: u64|
                !(#[trigger] servers.contains(s)) ==> after.servers[s] == m.servers[s]
            &&& forall|s: u64| #[trigger]
                servers.contains(s) ==> if m.servers[s].in_flight is None
                    && m.servers[s].queue.len() > 0 {
                    let target = m.keys[m.servers[s].queue[0]].latest;
                    &&& after.servers[s].in_flight == Some(target)
                    &&& after.servers[s].queue == m.servers[s].queue.skip(1)
                    &&& started.contains(target)
                } else {
                    after.servers[s] == m.servers[s]
                }
            &&& forall|j: int|
                0 <= j < started.len() ==> {
                    let s = (#[trigger] started[j]).server_id;
                    &&& servers.contains(s)
                    &&& m.servers[s].in_flight is None
                    &&& after.servers[s].in_flight == Some(started[j])
                }
            &&& forall|i: int, j: int|
                0 <= i < j < started.len() ==> (#[trigger] started[i]).server_id != (
                #[trigger] started[j]).server_id
        }),
    decreases servers.len(),
{
    let (after, started) = m.start_all(servers, now);
    if servers.len() == 0 {
        assert(after.servers.dom() =~= m.servers.dom());
    } else {
        let front = servers.drop_last();
        let sid = servers.last();
        assert(servers[servers.len() - 1] == sid);
        assert(servers.contains(sid));
        assert forall|s: u64| #[trigger] front.contains(s) implies servers.contains(s) by {
            assert(servers[front.index_of(s)] == s);
        }
        assert forall|s: u64| (#[trigger] servers.contains(s)) && s != sid implies front.contains(
            s,
        ) by {
            let i = servers.index_of(s);
            assert(front[i] == s);
        }
        assert(!front.contains(sid)) by {
            if front.contains(sid) {
                assert(servers[front.index_of(sid)] == servers[servers.len() - 1]);
            }
        }
        lemma_started(m, front, now);
        let (b, before) = m.start_all(front, now);
        lemma_start_next_keeps_invariant(b, sid, now);
        lemma_scan_takes_the_head(b, sid, now);
        assert(b.servers[sid] == m.servers[sid]);
        assert(b.server_ok(sid));
        let queue = b.servers[sid].queue;
        assert(after.servers.dom() =~= m.servers.dom());
        if b.servers[sid].in_flight is None && queue.len() > 0 {
            assert(queue.contains(queue[0]));
            assert(b.key_ok(queue[0]));
            let target = b.keys[queue[0]].latest;
            assert(started == before.push(target));
            assert(started[before.len() as int] == target);
            assert(target.server_id == sid);
            assert forall|x: TargetView| before.contains(x) implies started.contains(x) by {
                assert(started[before.index_of(x)] == x);
            }
            assert(started.contains(target));
            assert forall|j: int| 0 <= j < before.len() implies #[trigger] started[j]
                == before[j] by {}
        } else {
            assert(after.servers =~= b.servers);
            assert(started == before);
        }
        assert forall|s: u64| !(#[trigger] servers.contains(s)) implies after.servers[s]
            == m.servers[s] by {
            assert(!front.contains(s));
        }
        assert forall|s: u64| #[trigger] servers.contains(s) implies (if m.servers[s].in_flight
            is None && m.servers[s].queue.len() > 0 {
            let target = m.keys[m.servers[s].queue[0]].latest;
            &&& after.servers[s].in_flight == Some(target)
            &&& after.servers[s].queue == m.servers[s].queue.skip(1)
            &&& started.contains(target)
        } else {
            after.servers[s] == m.servers[s]
        }) by {
            if s != sid {
                assert(front.contains(s));
                assert(after.servers[s] == b.servers[s]);
            }
        }
        assert forall|j: int| 0 <= j < started.len() implies {
            let s = (#[trigger] started[j]).server_id;
            &&& servers.contains(s)
            &&& m.servers[s].in_flight is None
            &&& after.servers[s].in_flight == Some(started[j])
        } by {
            if j < before.len() {
                assert(started[j] == before[j]);
                assert(front.contains(before[j].server_id));
            }
        }
        assert forall|i: int, j: int| 0 <= i < j < started.len() implies (
        #[trigger] started[i]).server_id != (#[trigger] started[j]).server_id by {
            assert(started[i] == before[i]);
            assert(front.contains(before[i].server_id));
            if j < before.len() {
                assert(started[j] == before[j]);
            }
        }
    }
}

/// Every server for which a target of the batch is news has a request in flight afterwards. It is
/// the one that was in flight before, or else one that was started.
pub proof fn law_servers_with_news_are_at_work(
    m: Model,
    targets: Seq<TargetView>,
    now: u64,
    i: int,
)
    requires
        m.inv(),
        0 <= i < targets.len(),
        news_to(m.keys, targets[i]),
    ensures
        ({
            let (n, affected) = m.schedule_all(targets);
            let (after, started) = n.start_all(affected, now);
            let s = targets[i].server_id;
            &&& after.servers.dom().contains(s)
            &&& after.server(s) == after.servers[s]
            &&& after.servers[s].in_flight is Some
            &&& m.server(s).in_flight is Some ==> after.servers[s].in_flight == m.server(
                s,
            ).in_flight
            &&& m.server(s).in_flight is None ==> started.contains(after.servers[s].in_flight->0)
        }),
{
    lemma_scheduled(m, targets);
    let (n, affected) = m.schedule_all(targets);
    lemma_started(n, affected, now);
    let s = targets[i].server_id;
    assert(affected.contains(s));
    assert(n.server(s).in_flight == m.server(s).in_flight);
}

/// What a batch starts is one request for each of some servers that were idle, about the latest
/// target of a document; servers that the batch does not speak of are left alone, and no server
/// has something to ask and does not.
pub proof fn law_batches_start_idle_servers(m: Model, targets: Seq<TargetView>, now: u64)
    requires
        m.inv(),
    ensures
        ({
            let (n, affected) = m.schedule_all(targets);
            let (after, started) = n.start_all(affected, now);
            &&& forall|j: int|
                0 <= j < started.len() ==> {
                    let s = (#[trigger] started[j]).server_id;
                    &&& m.server(s).in_flight is None
                    &&& after.servers[s].in_flight == Some(started[j])
                    &&& exists|i: int| 0 <= i < targets.len() && (#[trigger] targets[i]).server_id == s
                }
            &&& forall|i: int, j: int|
                0 <= i < j < started.len() ==> (#[trigger] started[i]).server_id != (
                #[trigger] started[j]).server_id
            &&& forall|s: u64|
                (forall|i: int|
                    0 <= i < targets.len() ==> (#[trigger] targets[i]).server_id != s)
                    ==> after.servers.dom().contains(s) == m.servers.dom().contains(s)
                    && #[trigger] after.servers[s] == m.servers[s]
            &&& at_work(m) ==> at_work(after)
        }),
{
    lemma_scheduled(m, targets);
    let (n, affected) = m.schedule_all(targets);
    lemma_started(n, affected, now);
    let (after, started) = n.start_all(affected, now);
    assert forall|j: int| 0 <= j < started.len() implies {
        let s = (#[trigger] started[j]).server_id;
        &&& m.server(s).in_flight is None
        &&& after.servers[s].in_flight == Some(started[j])
        &&& exists|i: int| 0 <= i < targets.len() && (#[trigger] targets[i]).server_id == s
    } by {
        let s = started[j].server_id;
        assert(affected.contains(s));
        assert(n.server(s).in_flight == m.server(s).in_flight);
    }
    assert forall|s: u64|
        (forall|i: int| 0 <= i < targets.len() ==> (#[trigger] targets[i]).server_id != s) implies
        after.servers.dom().contains(s) == m.servers.dom().contains(s) && #[trigger] after.servers[s]
        == m.servers[s] by {
        assert(!affected.contains(s));
    }
    if at_work(m) {
        assert forall|s: u64|
            (#[trigger] after.servers.dom().contains(s))
                && after.servers[s].in_flight is None implies after.servers[s].queue.len() == 0 by {
            assert(n.servers.dom().contains(s));
            if !affected.contains(s) {
                assert(m.servers.dom().contains(s));
            }
        }
    }
}

/// After a batch the newest target of each document is known, and where the batch had news of the
/// document it is asked about or waits for that, its failures forgotten. Nothing that waited is
/// lost, and other documents stay as they were.
pub proof fn law_the_newest_target_is_asked_about(m: Model, targets: Seq<TargetView>, i: int)
    requires
        m.inv(),
        0 <= i < targets.len(),
    ensures
        ({
            let n = m.schedule_all(targets).0;
            let key = PullDiagnosticsKey {
                server_id: targets[i].server_id,
                document_id: targets[i].document_id,
            };
            &&& n.keys.dom().contains(key)
            &&& !news_to(n.keys, targets[i])
            &&& news_to(m.keys, targets[i]) ==> {
                &&& targets.contains(n.keys[key].latest)
                &&& n.keys[key].retry_attempt == 0 && n.keys[key].retry_deadline is None
                &&& asked(n, key)
            }
            &&& forall|k: PullDiagnosticsKey| #[trigger] asked(m, k) ==> asked(n, k)
            &&& forall|k: PullDiagnosticsKey|
                m.keys.dom().contains(k) && !targets.contains(#[trigger] n.keys[k].latest)
                    ==> n.keys[k] == m.keys[k]
        }),
{
    lemma_scheduled(m, targets);
    assert(targets[i].key() == PullDiagnosticsKey {
        server_id: targets[i].server_id,
        document_id: targets[i].document_id,
    });
}

/// What somebody waits for is asked next; the order of what else waits stays.
pub proof fn law_interactive_targets_go_first(m: Model, target: TargetView, now: u64)
    requires
        m.inv(),
        news_to(m.keys, target),
        target.priority == PullDiagnosticsPriority::Interactive,
        m.server(target.server_id).in_flight is None,
    ensures
        ({
            let n = m.schedule_one(target);
            let (after, started) = n.start_next(target.server_id, now);
            &&& started == Some(target)
            &&& after.servers[target.server_id].in_flight == Some(target)
            &&& after.servers[target.server_id].queue == collections::without(
                m.server(target.server_id).queue,
                target.key(),
            )
            &&& after.cancellations == m.cancellations
        }),
{
    let n = m.schedule_one(target);
    lemma_schedule_one_keeps_invariant(m, target);
    lemma_scan_takes_the_head(n, target.server_id, now);
    let rest = collections::without(m.server(target.server_id).queue, target.key());
    assert((seq![target.key()] + rest).skip(1) =~= rest);
}

/// What nobody waits for goes behind everything that waits already.
pub proof fn law_background_targets_go_last(m: Model, target: TargetView)
    requires
        m.inv(),
        news_to(m.keys, target),
        target.priority == PullDiagnosticsPriority::Background,
        !asked(m, target.key()),
    ensures
        m.schedule_one(target).servers[target.server_id].queue == m.server(
            target.server_id,
        ).queue.push(target.key()),
        m.schedule_one(target).cancellations == m.cancellations,
{
}

/// When a request ends its server takes what waits next, or the document again if there was news
/// of it in the meantime; it rests only if there is nothing to ask. Other servers are not
/// concerned, nor are requests that nobody waits for.
pub proof fn law_servers_go_on_after_a_request(
    m: Model,
    target: TargetView,
    end: RequestEnd,
    now: u64,
    other: u64,
)
    requires
        m.inv(),
        other != target.server_id,
    ensures
        ({
            let (after, started) = m.finish(target, end, now);
            let s = target.server_id;
            let awaited = m.servers.dom().contains(s) && m.servers[s].in_flight == Some(target);
            &&& !awaited ==> after == m && started is None
            &&& awaited ==> {
                &&& after.servers[s].in_flight == started
                &&& after.servers[s].in_flight is None ==> after.servers[s].queue.len() == 0
                &&& after.servers[s].trailing is None
                &&& m.servers[s].queue.len() > 0 || m.servers[s].trailing is Some
                    ==> started is Some
                &&& m.servers[s].trailing is Some ==> asked(after, target.key())
                &&& m.servers[s].trailing is None && m.servers[s].queue.len() > 0 ==> started
                    == Some(m.keys[m.servers[s].queue[0]].latest)
                &&& m.servers[s].trailing is None && m.servers[s].queue.len() == 0 ==> started
                    is None
            }
            &&& after.servers.dom().contains(other) == m.servers.dom().contains(other)
            &&& after.servers[other] == m.servers[other]
        }),
{
    if m.awaits(target) {
        let s = target.server_id;
        let key = target.key();
        assert(m.server_ok(s));
        assert(m.key_ok(key));
        lemma_settled(m, target, end, now);
        let next = m.settled(target, end, now);
        lemma_scan_takes_the_head(next, s, now);
        let latest = m.keys[key].latest;
        let queue = enqueued(m.servers[s].queue, key, latest.priority);
        lemma_enqueued_contains(m.servers[s].queue, key, latest.priority, key);
        if m.servers[s].trailing is Some {
            assert(next.servers[s].queue == queue);
            assert(queue.contains(key));
            assert(next.server_ok(s));
            let head = queue[0];
            assert(queue.contains(head));
            assert(next.key_ok(head));
            let after = next.start_next(s, now).0;
            if head != key {
                let i = queue.index_of(key);
                assert(queue.skip(1)[i - 1] == key);
            }
        }
    }
}

/// The end of a request keeps the invariant before the server goes on.
proof fn lemma_settled(m: Model, target: TargetView, end: RequestEnd, now: u64)
    requires
        m.inv(),
        m.awaits(target),
    ensures
        m.settled(target, end, now).inv(),
{
    let key = target.key();
    let sid = target.server_id;
    assert(m.server_ok(sid));
    assert(m.keys.dom().contains(key));
    assert(m.key_ok(key));
    let server = m.servers[sid];
    let next = m.settled(target, end, now);
    let latest = m.keys[key].latest;
    lemma_enqueued_no_duplicates(server.queue, key, latest.priority);
    assert forall|k: PullDiagnosticsKey| #[trigger]
        enqueued(server.queue, key, latest.priority).contains(k) <==> (server.queue.contains(k) || k
        == key) by {
        lemma_enqueued_contains(server.queue, key, latest.priority, k);
    }
    assert(collections::inserted(m.key_order, key) == m.key_order) by {
        assert(m.key_order.contains(key));
    }
    assert(next.key_order == m.key_order);
    assert(next.keys.dom() =~= m.keys.dom());
    assert(next.keys[key].latest == latest);
    assert forall|s: u64| #[trigger] next.servers.dom().contains(s) implies next.server_ok(s) by {
        assert(m.servers.dom().contains(s));
        assert(m.server_ok(s));
    }
    assert forall|k: PullDiagnosticsKey| #[trigger] next.keys.dom().contains(k) implies next.key_ok(
        k,
    ) by {
        assert(m.keys.dom().contains(k));
        assert(m.key_ok(k));
    }
}

/// A report is passed on exactly if its request was awaited and nothing newer is known of the
/// document; in front of what is started.
pub proof fn law_current_reports_are_passed_on<R>(
    m: Model,
    target: TargetView,
    response: R,
    error: RequestError,
    now: u64,
)
    requires
        m.inv(),
    ensures
        ({
            let events = finish_events(
                m,
                target,
                PullDiagnosticsRequestOutcome::Response(response),
                now,
            );
            let passed = m.servers.dom().contains(target.server_id)
                && m.servers[target.server_id].in_flight == Some(target)
                && m.servers[target.server_id].trailing is None;
            &&& passed ==> events.len() > 0 && events[0] == (EventView::Response {
                target,
                response,
            })
            &&& events.contains(EventView::Response { target, response }) ==> passed
        }),
        forall|e: EventView<R>|
            #[trigger] finish_events(
                m,
                target,
                PullDiagnosticsRequestOutcome::<R>::Failed(error),
                now,
            ).contains(e) ==> e is Start,
{
    if m.servers.dom().contains(target.server_id) {
        assert(m.server_ok(target.server_id));
    }
    let events = finish_events(m, target, PullDiagnosticsRequestOutcome::Response(response), now);
    if events.contains(EventView::Response { target, response }) {
        let i = events.index_of(EventView::Response { target, response });
        assert(events[i] is Response);
    }
}

/// A request that failed for a passing reason is tried again later, and not before; its document
/// is then neither asked about nor waiting. One that was refused is not tried again.
pub proof fn law_failed_requests_are_tried_later(m: Model, target: TargetView, now: u64)
    requires
        m.inv(),
        m.servers.dom().contains(target.server_id),
        m.servers[target.server_id].in_flight == Some(target),
        m.servers[target.server_id].trailing is None,
        m.keys[target.key()].retry_attempt < RETRY_LIMIT,
        now <= u64::MAX - RETRY_MAX_DELAY,
    ensures
        ({
            let after = m.finish(target, RequestEnd::Retryable, now).0;
            let state = after.keys[target.key()];
            &&& state.latest == target
            &&& state.retry_attempt == m.keys[target.key()].retry_attempt + 1
            &&& state.retry_deadline matches Some(deadline) && now < deadline <= now
                + RETRY_MAX_DELAY
            &&& !asked(after, target.key())
        }),
        ({
            let after = m.finish(target, RequestEnd::Refused, now).0;
            &&& after.keys == m.keys
            &&& !asked(after, target.key())
        }),
        ({
            let after = m.finish(target, RequestEnd::Answered, now).0;
            &&& after.keys[target.key()].retry_attempt == 0
            &&& after.keys[target.key()].retry_deadline is None
            &&& !asked(after, target.key())
        }),
{
    let s = target.server_id;
    let key = target.key();
    assert(m.server_ok(s));
    assert(m.key_ok(key));
    law_backoff_grows_to_its_limit((m.keys[key].retry_attempt + 1) as u8);
    lemma_settled_and_started(m, target, RequestEnd::Retryable, now);
    lemma_settled_and_started(m, target, RequestEnd::Refused, now);
    lemma_settled_and_started(m, target, RequestEnd::Answered, now);
}

/// A request with nothing newer behind it leaves the server for the next in the queue.
proof fn lemma_settled_and_started(m: Model, target: TargetView, end: RequestEnd, now: u64)
    requires
        m.inv(),
        m.awaits(target),
        m.servers[target.server_id].trailing is None,
    ensures
        !asked(m.finish(target, end, now).0, target.key()),
        m.finish(target, end, now).0.keys == m.settled(target, end, now).keys,
{
    let s = target.server_id;
    let key = target.key();
    assert(m.server_ok(s));
    assert(m.key_ok(key));
    lemma_settled(m, target, end, now);
    let next = m.settled(target, end, now);
    assert(next.server_ok(s));
    lemma_scan_takes_the_head(next, s, now);
    let queue = next.servers[s].queue;
    assert(queue == m.servers[s].queue);
    let after = next.start_next(s, now).0;
    if queue.len() > 0 {
        assert(queue.contains(queue[0]));
        assert(next.key_ok(queue[0]));
        if queue.skip(1).contains(key) {
            let i = queue.skip(1).index_of(key);
            assert(queue[i + 1] == key);
        }
    }
}

/// Of a server that is gone nothing is left but that its request is to be given up; whatever
/// concerns other servers stays.
pub proof fn law_servers_that_are_gone_are_forgotten(
    m: Model,
    server_id: u64,
    key: PullDiagnosticsKey,
    other: u64,
)
    requires
        other != server_id,
    ensures
        ({
            let after = m.clear_server(server_id);
            &&& !after.servers.dom().contains(server_id)
            &&& after.servers.dom().contains(other) == m.servers.dom().contains(other)
            &&& after.servers.dom().contains(other) ==> after.servers[other] == m.servers[other]
            &&& after.keys.dom().contains(key) == (m.keys.dom().contains(key) && key.server_id
                != server_id)
            &&& after.keys.dom().contains(key) ==> after.keys[key] == m.keys[key]
            &&& !after.inter_file_servers.contains(server_id)
            &&& after.inter_file_servers.contains(other) == m.inter_file_servers.contains(other)
            &&& after.inter_file_servers.len() == 0 ==> after.inter_file_deadline is None
            &&& after.inter_file_servers.len() > 0 ==> after.inter_file_deadline
                == m.inter_file_deadline
            &&& after.documents == m.documents && after.document_deadline == m.document_deadline
            &&& m.servers.dom().contains(server_id) && m.servers[server_id].in_flight is Some
                ==> after.cancellations == m.cancellations.push(m.servers[server_id].in_flight->0)
            &&& !(m.servers.dom().contains(server_id) && m.servers[server_id].in_flight is Some)
                ==> after.cancellations == m.cancellations
        }),
{
    collections::lemma_without_contains(m.inter_file_servers, server_id, server_id);
    collections::lemma_without_contains(m.inter_file_servers, server_id, other);
}

/// Until the last change has rested long enough nothing is released; then every changed document
/// is, once.
pub proof fn law_changed_documents_rest<R>(m: Model, document: u64, now: u64, at: u64)
    requires
        now <= u64::MAX - DOCUMENT_DEBOUNCE,
        at >= now,
    ensures
        ({
            let waiting = m.debounce_document(document, now);
            let events = tick_events::<R>(waiting, at);
            &&& waiting.documents.contains(document)
            &&& forall|d: u64| #[trigger]
                m.documents.contains(d) ==> waiting.documents.contains(d)
            &&& waiting.document_deadline == Some((now + 250) as u64)
            &&& at < now + 250 ==> (forall|i: int|
                0 <= i < events.len() ==> !(#[trigger] events[i] is QueueDocuments))
            &&& at >= now + 250 ==> events.len() > 0 && events[0]
                == (EventView::<R>::QueueDocuments { document_ids: waiting.documents })
        }),
{
    assert forall|d: u64| #[trigger] m.documents.contains(d) implies m.debounce_document(
        document,
        now,
    ).documents.contains(d) by {
        collections::lemma_inserted_contains(m.documents, document, d);
    }
    collections::lemma_inserted_contains(m.documents, document, document);
    let waiting = m.debounce_document(document, now);
    let events = tick_events::<R>(waiting, at);
    let k = waiting.documents.index_of(document);
    assert(waiting.documents.len() > 0);
}

/// A retry that is due is asked for again, and its server is at work; others keep waiting.
pub proof fn law_due_retries_are_asked_for(m: Model, key: PullDiagnosticsKey, now: u64)
    requires
        m.inv(),
        m.keys.dom().contains(key),
    ensures
        ({
            let (after, started) = m.tick(now);
            let due = m.keys[key].retry_deadline matches Some(deadline) && deadline <= now;
            &&& after.keys.dom() == m.keys.dom()
            &&& due ==> {
                &&& after.keys[key].retry_deadline is None
                &&& after.keys[key].retry_attempt == m.keys[key].retry_attempt
                &&& after.keys[key].latest == m.keys[key].latest
                &&& asked(after, key)
                &&& after.servers[key.server_id].in_flight is Some
                &&& m.servers[key.server_id].in_flight is None ==> started.contains(
                    after.servers[key.server_id].in_flight->0,
                )
            }
            &&& !due ==> after.keys[key] == m.keys[key] && asked(after, key) == asked(m, key)
        }),
{
    let m1 = if m.documents_due(now) {
        Model { document_deadline: None, documents: seq![], ..m }
    } else {
        m
    };
    let m2 = if m.sweep_due(now) {
        Model { inter_file_deadline: None, inter_file_servers: seq![], ..m1 }
    } else {
        m1
    };
    lemma_same_requests_same_invariant(m, m2);
    lemma_due(m2, m2.key_order, now);
    let due = m2.due(m2.key_order, now);
    assert forall|k: PullDiagnosticsKey| #[trigger] due.contains(k) implies m2.keys.dom().contains(
        k,
    ) && m2.keys[k].retry_deadline is Some by {
        assert(m2.key_order.contains(k));
    }
    assert(m2.key_order.contains(key));
    lemma_wake_all_keeps_invariant(m2, due);
    lemma_woken_keys(m2, due);
    let (n, affected) = m2.wake_all(due);
    lemma_started(n, affected, now);
    let (after, started) = n.start_all(affected, now);
    let s = key.server_id;
    assert(m.key_ok(key));
    assert(n.servers.dom().contains(s));
    assert(n.server_ok(s));
    let queue = n.servers[s].queue;
    assert(due.contains(key) || queue.contains(key) == m.servers[s].queue.contains(key));
    assert(n.servers[s].in_flight == m.servers[s].in_flight);
    if affected.contains(s) && n.servers[s].in_flight is None && queue.len() > 0 {
        assert(queue.contains(queue[0]));
        assert(n.key_ok(queue[0]));
        let rest = queue.skip(1);
        assert(after.servers[s].queue == rest);
        assert(after.servers[s].in_flight == Some(n.keys[queue[0]].latest));
        assert(rest.contains(key) || key == queue[0] <==> queue.contains(key)) by {
            if queue.contains(key) && queue[0] != key {
                let i = queue.index_of(key);
                assert(rest[i - 1] == key);
            }
            if rest.contains(key) {
                let i = rest.index_of(key);
                assert(queue[i + 1] == key);
            }
        }
        assert(asked(after, key) <==> queue.contains(key));
        assert(asked(m, key) <==> m.servers[s].queue.contains(key));
    } else {
        if due.contains(key) {
            assert(affected.contains(s));
            assert(queue.contains(key));
        }
        if affected.contains(s) {
            assert(after.servers[s] == n.servers[s]);
        } else {
            assert(!affected.contains(s));
            assert(after.servers[s] == n.servers[s]);
        }
    }
}

/// What waking documents whose retry is due does.
proof fn lemma_woken_keys(m: Model, keys: Seq<PullDiagnosticsKey>)
    requires
        m.inv(),
        keys.no_duplicates(),
        forall|k: PullDiagnosticsKey| #[trigger]
            keys.contains(k) ==> m.keys.dom().contains(k) && m.keys[k].retry_deadline is Some,
    ensures
        ({
            let (n, affected) = m.wake_all(keys);
            &&& affected.no_duplicates()
            &&& n.servers.dom() == m.servers.dom()
            &&& forall|s: u64| (#[trigger] n.servers[s]).in_flight == m.servers[s].in_flight
            &&& forall|s: u64| #[trigger] affected.contains(s) ==> m.servers.dom().contains(s)
            &&& forall|k: PullDiagnosticsKey| #[trigger]
                keys.contains(k) ==> {
                    &&& affected.contains(k.server_id)
                    &&& n.keys[k] == (KeyStateView { retry_deadline: None, ..m.keys[k] })
                    &&& n.servers[k.server_id].queue.contains(k)
                }
            &&& forall|k: PullDiagnosticsKey|
                !keys.contains(k) ==> #[trigger] n.servers[k.server_id].queue.contains(k)
                    == m.servers[k.server_id].queue.contains(k)
        }),
    decreases keys.len(),
{
    let (n, affected) = m.wake_all(keys);
    if keys.len() == 0 {
        assert(n.servers.dom() =~= m.servers.dom());
    } else {
        let front = keys.drop_last();
        let key = keys.last();
        assert(keys[keys.len() - 1] == key);
        assert(keys.contains(key));
        assert forall|k: PullDiagnosticsKey| #[trigger] front.contains(k) implies keys.contains(k) by {
            assert(keys[front.index_of(k)] == k);
        }
        assert forall|k: PullDiagnosticsKey| #[trigger] keys.contains(k) && k != key implies front.contains(
            k,
        ) by {
            let i = keys.index_of(k);
            assert(front[i] == k);
        }
        assert(!front.contains(key)) by {
            if front.contains(key) {
                assert(keys[front.index_of(key)] == keys[keys.len() - 1]);
            }
        }
        lemma_wake_all_keeps_invariant(m, front);
        lemma_woken_keys(m, front);
        let (b, before) = m.wake_all(front);
        let s = key.server_id;
        assert(m.key_ok(key));
        assert(b.key_ok(key));
        assert(b.server_ok(s));
        collections::lemma_inserted_no_duplicates(before, s);
        assert forall|x: u64| #[trigger] affected.contains(x) <==> before.contains(x) || x == s by {
            collections::lemma_inserted_contains(before, s, x);
        }
        let priority = b.keys[key].latest.priority;
        assert forall|k: PullDiagnosticsKey| #[trigger]
            enqueued(b.servers[s].queue, key, priority).contains(k) <==> b.servers[s].queue.contains(k)
            || k == key by {
            lemma_enqueued_contains(b.servers[s].queue, key, priority, k);
        }
        assert(!b.flies(key));
        assert(n.servers.dom() =~= m.servers.dom());
    }
}

/// Of targets that wait together only the newest of each document is left, which is one that was
/// there before or one that came.
pub proof fn law_the_newest_of_a_document_is_left(
    schedules: Map<PullDiagnosticsKey, TargetView>,
    targets: Seq<TargetView>,
)
    ensures
        ({
            let all = coalesced_all(schedules, targets);
            &&& forall|k: PullDiagnosticsKey| #[trigger]
                schedules.dom().contains(k) ==> all.dom().contains(k)
                    && !schedules[k].is_newer_than(all[k])
            &&& forall|i: int|
                0 <= i < targets.len() ==> all.dom().contains((#[trigger] targets[i]).key())
                    && !targets[i].is_newer_than(all[targets[i].key()])
            &&& forall|k: PullDiagnosticsKey| #[trigger]
                all.dom().contains(k) ==> (schedules.dom().contains(k) && all[k] == schedules[k])
                    || (targets.contains(all[k]) && all[k].key() == k)
        }),
    decreases targets.len(),
{
    if targets.len() > 0 {
        let front = targets.drop_last();
        law_the_newest_of_a_document_is_left(schedules, front);
        assert(targets[targets.len() - 1] == targets.last());
        assert forall|x: TargetView| front.contains(x) implies targets.contains(x) by {
            assert(targets[front.index_of(x)] == x);
        }
        assert forall|i: int| 0 <= i < front.len() implies #[trigger] targets[i] == front[i] by {}
    }
}

/// A failure of the connection is tried again, and so is a request that the server gave up, unless
/// it said not to; other answers are final.
pub proof fn law_passing_failures_are_tried_again(code: i64, retrigger: Option<bool>)
    ensures
        retryable(RequestError::Rpc { code, retrigger }) <==> code == -32802 && retrigger != Some(
            false,
        ),
        retryable(RequestError::Timeout),
        retryable(RequestError::StreamClosed),
        retryable(RequestError::Io),
        retryable(RequestError::Other),
        !retryable(RequestError::Parse),
        !retryable(RequestError::Unhandled),
{
}

/// Until the last change has rested long enough no sweep is released; then every server that waits
/// for one is, once.
pub proof fn law_sweeps_rest<R>(m: Model, servers: Seq<u64>, server: u64, now: u64, at: u64)
    requires
        now <= u64::MAX - INTER_FILE_SWEEP_DEBOUNCE,
        servers.contains(server),
        at >= now,
    ensures
        ({
            let waiting = m.debounce_inter_file_sweep(servers, now);
            let events = tick_events::<R>(waiting, at);
            let after = waiting.tick(at).0;
            let sweep = EventView::<R>::QueueSweep { language_servers: waiting.inter_file_servers };
            &&& waiting.inter_file_servers.contains(server)
            &&& forall|s: u64| #[trigger]
                m.inter_file_servers.contains(s) ==> waiting.inter_file_servers.contains(s)
            &&& waiting.inter_file_deadline == Some((now + 1000) as u64)
            &&& waiting.documents == m.documents && waiting.document_deadline == m.document_deadline
            &&& at < now + 1000 ==> (forall|i: int|
                0 <= i < events.len() ==> !(#[trigger] events[i] is QueueSweep))
            &&& at >= now + 1000 ==> events.contains(sweep)
        }),
{
    let waiting = m.debounce_inter_file_sweep(servers, now);
    assert(servers.len() > 0);
    collections::lemma_inserted_all_contains(m.inter_file_servers, servers, server);
    assert forall|s: u64| #[trigger] m.inter_file_servers.contains(
        s,
    ) implies waiting.inter_file_servers.contains(s) by {
        collections::lemma_inserted_all_contains(m.inter_file_servers, servers, s);
    }
    let events = tick_events::<R>(waiting, at);
    if at >= now + 1000 {
        let k: int = if waiting.documents_due(at) && waiting.documents.len() > 0 {
            1
        } else {
            0
        };
        assert(waiting.inter_file_servers.len() > 0);
        assert(events[k] == EventView::<R>::QueueSweep {
            language_servers: waiting.inter_file_servers,
        });
    }
}

/// Servers that have gone leave neither requests nor documents.
proof fn lemma_cleared(m: Model, servers: Seq<u64>)
    requires
        m.inv(),
    ensures
        m.clear_all(servers).inv(),
        forall|s: u64| #[trigger]
            servers.contains(s) ==> !m.clear_all(servers).servers.dom().contains(s),
        forall|k: PullDiagnosticsKey|
            servers.contains(k.server_id) ==> !#[trigger] m.clear_all(servers).keys.dom().contains(
                k,
            ),
        forall|s: u64|
            !(#[trigger] servers.contains(s)) ==> m.clear_all(servers).servers.dom().contains(s)
                == m.servers.dom().contains(s) && (m.servers.dom().contains(s) ==> m.clear_all(
                servers,
            ).servers[s] == m.servers[s]),
    decreases servers.len(),
{
    if servers.len() > 0 {
        let front = servers.drop_last();
        let last = servers.last();
        lemma_cleared(m, front);
        lemma_clear_server_keeps_invariant(m.clear_all(front), last);
        assert(servers[servers.len() - 1] == last);
        assert forall|s: u64| #[trigger] servers.contains(s) <==> front.contains(s) || s
            == last by {
            if front.contains(s) {
                assert(servers[front.index_of(s)] == s);
            }
            if servers.contains(s) {
                let i = servers.index_of(s);
                if i < front.len() {
                    assert(front[i] == s);
                }
            }
        }
        assert forall|k: PullDiagnosticsKey| servers.contains(k.server_id) implies
            !#[trigger] m.clear_all(servers).keys.dom().contains(k) by {
            if front.contains(k.server_id) {
                assert(!m.clear_all(front).keys.dom().contains(k));
            }
        }
        assert forall|s: u64| #[trigger] servers.contains(s) implies !m.clear_all(
            servers,
        ).servers.dom().contains(s) by {
            if front.contains(s) {
                assert(!m.clear_all(front).servers.dom().contains(s));
            }
        }
        assert forall|s: u64| !(#[trigger] servers.contains(s)) implies m.clear_all(
            servers,
        ).servers.dom().contains(s) == m.servers.dom().contains(s) && (m.servers.dom().contains(s)
            ==> m.clear_all(servers).servers[s] == m.servers[s]) by {
            assert(!front.contains(s));
        }
    }
}

proof fn lemma_debounced(m: Model, documents: Seq<u64>, now: u64)
    ensures
        m.debounce_all(documents, now).servers == m.servers,
        m.debounce_all(documents, now).keys == m.keys,
    decreases documents.len(),
{
    if documents.len() > 0 {
        lemma_debounced(m, documents.drop_last(), now);
    }
}

/// That a server has gone comes before what is scheduled: a target for one that is back starts
/// anew, whatever was going on with the one before.
pub proof fn law_servers_that_are_back_start_anew<R>(
    m: Model,
    pending: PendingPullDiagnostics<R>,
    now: u64,
    i: int,
)
    requires
        m.inv(),
        0 <= i < pending.schedules.values@.len(),
        pending.exited_servers@.contains(pending.schedules.values@[i].server_id),
        pending.completions@.len() == 0,
    ensures
        ({
            let (after, events) = woken(m, pending, now);
            let s = pending.schedules.values@[i].server_id;
            &&& after.servers.dom().contains(s)
            &&& after.servers[s].in_flight is Some
            &&& target_views(pending.schedules.values@).contains(after.servers[s].in_flight->0)
            &&& events.contains(EventView::<R>::Start { target: after.servers[s].in_flight->0 })
        }),
{
    let m1 = m.clear_all(pending.exited_servers@);
    let targets = target_views(pending.schedules.values@);
    let s = pending.schedules.values@[i].server_id;
    assert(targets[i] == pending.schedules.values@[i]@);
    assert(targets[i].server_id == s);
    lemma_cleared(m, pending.exited_servers@);
    assert(!m1.keys.dom().contains(targets[i].key()));
    law_servers_with_news_are_at_work(m1, targets, now, i);
    lemma_scheduled(m1, targets);
    let (n, affected) = m1.schedule_all(targets);
    lemma_started(n, affected, now);
    let (after, started) = n.start_all(affected, now);
    assert(affected.contains(s));
    assert(!m1.servers.dom().contains(s));
    assert(n.server(s).in_flight == m1.server(s).in_flight);
    let queue = n.servers[s].queue;
    assert(n.server_ok(s));
    assert(queue.contains(queue[0]));
    assert(n.keys.dom().contains(queue[0]));
    assert(!m1.keys.dom().contains(queue[0]));
    let target = after.servers[s].in_flight->0;
    let k = started.index_of(target);
    assert(finish_all(after, completion_views(pending.completions@), now) == (
        after,
        Seq::<EventView<R>>::empty(),
    ));
    lemma_debounced(after, pending.documents@, now);
    let events = woken(m, pending, now).1;
    assert(events[k] == EventView::<R>::Start { target });
}

/// Whatever waits has a deadline, and every deadline is that of something that waits.
pub proof fn law_whatever_waits_has_a_deadline(m: Model, key: PullDiagnosticsKey, at: u64)
    ensures
        m.document_deadline == Some(at) ==> m.is_deadline(at),
        m.inter_file_deadline == Some(at) ==> m.is_deadline(at),
        m.keys.dom().contains(key) && m.keys[key].retry_deadline == Some(at) ==> m.is_deadline(at),
        m.is_deadline(at) && m.document_deadline != Some(at) && m.inter_file_deadline != Some(at)
            ==> exists|k: PullDiagnosticsKey| #[trigger]
            m.keys.dom().contains(k) && m.keys[k].retry_deadline == Some(at),
{
}

/// What is queued waits once: what somebody waits for at the front, other things behind what was
/// there, and nothing is pushed out.
pub proof fn law_nothing_is_pushed_out_of_a_queue(
    queue: Seq<PullDiagnosticsKey>,
    key: PullDiagnosticsKey,
    priority: PullDiagnosticsPriority,
    other: PullDiagnosticsKey,
)
    requires
        queue.no_duplicates(),
    ensures
        enqueued(queue, key, priority).no_duplicates(),
        enqueued(queue, key, priority).contains(other) <==> queue.contains(other) || other == key,
        enqueued(queue, key, PullDiagnosticsPriority::Interactive)[0] == key,
        queue.contains(key) ==> enqueued(queue, key, PullDiagnosticsPriority::Background) == queue,
        !queue.contains(key) ==> enqueued(queue, key, PullDiagnosticsPriority::Background)
            == queue.push(key),
        !queue.contains(key) ==> enqueued(queue, key, PullDiagnosticsPriority::Interactive)
            == seq![key] + queue,
{
    lemma_enqueued_no_duplicates(queue, key, priority);
    lemma_enqueued_contains(queue, key, priority, other);
    if !queue.contains(key) {
        crate::collections::lemma_without_absent(queue, key);
    }
}

} // verus!
