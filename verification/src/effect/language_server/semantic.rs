//! Which semantic tokens are asked for, and how.

use vstd::prelude::*;

use crate::collections::IdMap;
use crate::effect::language_server::requests;
use crate::effect::language_server::requests::{Feature, LspDocument, LspServer};
use crate::lines;
use crate::lines::Text;

verus! {

/// A document with more lines than this is asked about in part.
pub const SEMANTIC_TOKENS_FULL_LINE_LIMIT: usize = 10_000;

/// What a view shows.
#[derive(Debug, Clone, Copy, PartialEq, Eq, Structural)]
pub struct ViewWindow {
    pub doc: u64,
    pub focused: bool,
    /// The first character shown.
    pub anchor: usize,
    /// How many lines are shown.
    pub height: usize,
}

/// The view that counts for a document: the last that shows it and has the focus, or else the
/// last that shows it.
pub open spec fn chosen_view(views: Seq<ViewWindow>, doc: u64) -> Option<ViewWindow>
    decreases views.len(),
{
    if views.len() == 0 {
        None
    } else {
        let before = chosen_view(views.drop_last(), doc);
        let last = views.last();
        if last.doc != doc {
            before
        } else {
            match before {
                Some(view) => if view.focused && !last.focused {
                    before
                } else {
                    Some(last)
                },
                None => Some(last),
            }
        }
    }
}

/// The view that counts shows the document, and has the focus if any view of it has.
pub proof fn lemma_chosen_view(views: Seq<ViewWindow>, doc: u64)
    ensures
        match chosen_view(views, doc) {
            Some(view) => views.contains(view) && view.doc == doc && ((exists|i: int|
                0 <= i < views.len() && (#[trigger] views[i]).doc == doc && views[i].focused)
                ==> view.focused),
            None => forall|i: int| 0 <= i < views.len() ==> (#[trigger] views[i]).doc != doc,
        },
    decreases views.len(),
{
    if views.len() > 0 {
        let before = views.drop_last();
        lemma_chosen_view(before, doc);
        assert(views[views.len() - 1] == views.last());
        if let Some(view) = chosen_view(before, doc) {
            let i = choose|i: int| 0 <= i < before.len() && before[i] == view;
            assert(views[i] == view);
        }
        assert forall|i: int| 0 <= i < views.len() - 1 implies #[trigger] views[i]
            == before[i] by {}
    }
}

pub fn choose_view(views: &Vec<ViewWindow>, doc: u64) -> (r: Option<ViewWindow>)
    ensures
        r == chosen_view(views@, doc),
{
    let mut best: Option<ViewWindow> = None;
    let mut i: usize = 0;
    assert(views@.take(0) =~= seq![]);
    while i < views.len()
        invariant
            i <= views@.len(),
            best == chosen_view(views@.take(i as int), doc),
        decreases views@.len() - i,
    {
        assert(views@.take(i + 1).drop_last() =~= views@.take(i as int));
        let view = views[i];
        if view.doc == doc {
            let keep = match best {
                Some(other) => other.focused && !view.focused,
                None => false,
            };
            if !keep {
                best = Some(view);
            }
        }
        i += 1;
    }
    assert(views@.take(i as int) =~= views@);
    best
}

/// From where to where tokens are asked for: everything, or the lines from `first_line` on that
/// fit into the window and one more.
pub open spec fn request_range(t: Seq<char>, window: Option<(usize, usize)>) -> (int, int) {
    let starts = lines::line_starts(t);
    match window {
        None => (0, t.len() as int),
        Some((first_line, height)) => {
            let first = if first_line < starts.len() {
                first_line as int
            } else {
                starts.len() - 1
            };
            let end = first + height + 1;
            (
                starts[first] as int,
                if end >= starts.len() {
                    t.len() as int
                } else {
                    starts[end] as int
                },
            )
        },
    }
}

pub fn semantic_tokens_request_range(text: &Text, visible_line_window: Option<(usize, usize)>) -> (r: (
    usize,
    usize,
))
    ensures
        (r.0 as int, r.1 as int) == request_range(text@, visible_line_window),
        r.0 <= r.1 <= text@.len(),
{
    let count: usize = text.len_lines();
    proof {
        lines::lemma_line_starts(text@);
    }
    let (first_line, height): (usize, usize) = match visible_line_window {
        Some(window) => window,
        None => {
            return (0, text.len_chars());
        },
    };
    let first: usize = if first_line < count {
        first_line
    } else {
        count - 1
    };
    let end_line: usize = first.saturating_add(height).saturating_add(1);
    let end: usize = if end_line >= count {
        text.len_chars()
    } else {
        text.line_to_char(end_line)
    };
    (text.line_to_char(first), end)
}

/// How a server is asked for tokens.
#[derive(Debug)]
pub enum TokensRequest {
    /// Those of a part of the document.
    Range { from: usize, to: usize },
    /// What has changed since an earlier answer, and all of them if that does not work out.
    Delta { previous_result_id: String },
    Full,
}

/// How a server is asked, if it can be.
pub open spec fn tokens_request(
    server: LspServer,
    use_range: bool,
    range: (int, int),
    previous: Map<u64, String>,
    r: TokensRequest,
) -> bool {
    &&& server.has(Feature::SemanticTokens) && server.semantic_tokens_legend
    &&& if use_range && server.semantic_tokens_range {
        r matches TokensRequest::Range { from, to } && (from as int, to as int) == range
    } else {
        &&& server.semantic_tokens_full
        &&& if server.semantic_tokens_delta && previous.dom().contains(server.id) {
            r matches TokensRequest::Delta { previous_result_id } && previous_result_id@
                == previous[server.id]@
        } else {
            r is Full
        }
    }
}

/// Nothing can be asked of the server.
pub open spec fn cannot_ask(server: LspServer, use_range: bool) -> bool {
    ||| !server.has(Feature::SemanticTokens)
    ||| !server.semantic_tokens_legend
    ||| !(use_range && server.semantic_tokens_range) && !server.semantic_tokens_full
}

/// How one server is asked. A long document is asked about in part where the server knows how;
/// elsewhere only the changes are asked for, where the server knows how and has answered before.
pub fn plan_tokens_request(
    server: &LspServer,
    use_range: bool,
    range: (usize, usize),
    previous: &IdMap<u64, String>,
) -> (r: Option<TokensRequest>)
    requires
        previous.wf(),
    ensures
        match r {
            Some(request) => tokens_request(
                *server,
                use_range,
                (range.0 as int, range.1 as int),
                previous@,
                request,
            ),
            None => cannot_ask(*server, use_range),
        },
{
    if !server.supports(Feature::SemanticTokens) || !server.semantic_tokens_legend {
        return None;
    }
    if use_range && server.semantic_tokens_range {
        return Some(TokensRequest::Range { from: range.0, to: range.1 });
    }
    if !server.semantic_tokens_full {
        return None;
    }
    if server.semantic_tokens_delta {
        if let Some(id) = previous.get(server.id) {
            return Some(TokensRequest::Delta { previous_result_id: id.clone() });
        }
    }
    Some(TokensRequest::Full)
}

/// The servers that can be asked.
pub open spec fn askable(servers: Seq<LspServer>, use_range: bool) -> Seq<LspServer> {
    servers.filter(|server: LspServer| !cannot_ask(server, use_range))
}

/// A request for the tokens of a version of a document.
#[derive(Debug)]
pub struct SemanticTokensRequest {
    pub doc_id: u64,
    pub version: i32,
    pub request: u64,
    /// Each server that is asked, and how.
    pub servers: Vec<(u64, TokensRequest)>,
}

/// Every server that can be asked is asked, in order.
pub open spec fn all_asked(
    r: Seq<(u64, TokensRequest)>,
    servers: Seq<LspServer>,
    use_range: bool,
    range: (int, int),
    previous: Map<u64, String>,
) -> bool {
    let asked = askable(servers, use_range);
    &&& r.len() == asked.len()
    &&& forall|i: int|
        0 <= i < r.len() ==> (#[trigger] r[i]).0 == asked[i].id && tokens_request(
            asked[i],
            use_range,
            range,
            previous,
            r[i].1,
        )
}

fn plan_tokens_requests(
    servers: &Vec<LspServer>,
    use_range: bool,
    range: (usize, usize),
    previous: &IdMap<u64, String>,
) -> (r: Vec<(u64, TokensRequest)>)
    requires
        previous.wf(),
    ensures
        all_asked(r@, servers@, use_range, (range.0 as int, range.1 as int), previous@),
{
    let mut requests: Vec<(u64, TokensRequest)> = Vec::new();
    let mut i: usize = 0;
    reveal(Seq::filter);
    while i < servers.len()
        invariant
            i <= servers@.len(),
            previous.wf(),
            all_asked(
                requests@,
                servers@.take(i as int),
                use_range,
                (range.0 as int, range.1 as int),
                previous@,
            ),
        decreases servers@.len() - i,
    {
        proof {
            reveal(Seq::filter);
            assert(servers@.take(i + 1).drop_last() =~= servers@.take(i as int));
        }
        match plan_tokens_request(&servers[i], use_range, range, previous) {
            Some(request) => {
                requests.push((servers[i].id, request));
            },
            None => {},
        }
        i += 1;
    }
    assert(servers@.take(i as int) =~= servers@);
    requests
}

/// The part of the document that is asked about: what its view shows, if it is asked about in
/// part.
pub open spec fn asked_range(t: Seq<char>, views: Seq<ViewWindow>, doc: u64, use_range: bool) -> (
    int,
    int,
) {
    match chosen_view(views, doc) {
        Some(view) if use_range => request_range(
            t,
            Some((lines::line_of(t, view.anchor as nat) as usize, view.height)),
        ),
        _ => request_range(t, None),
    }
}

/// Asks the servers of a document for its tokens.
pub fn request_semantic_tokens(
    enabled: bool,
    documents: &mut IdMap<u64, LspDocument>,
    doc_id: u64,
    text: &Text,
    views: &Vec<ViewWindow>,
    previous: &IdMap<u64, String>,
) -> (r: Option<SemanticTokensRequest>)
    requires
        old(documents).wf(),
        previous.wf(),
        old(documents)@.dom().contains(doc_id) ==> old(documents)@[doc_id].requests.issued
            < u64::MAX,
        forall|i: int|
            0 <= i < views@.len() && (#[trigger] views@[i]).doc == doc_id ==> views@[i].anchor
                <= text@.len(),
    ensures
        final(documents).wf(),
        final(documents).order() == old(documents).order(),
        if enabled && old(documents)@.dom().contains(doc_id) {
            let document = old(documents)@[doc_id];
            let use_range = lines::line_starts(text@).len() > SEMANTIC_TOKENS_FULL_LINE_LIMIT;
            &&& final(documents)@ == old(documents)@.insert(
                doc_id,
                requests::after_restart(document, Feature::SemanticTokens),
            )
            &&& match r {
                Some(request) => {
                    &&& request.doc_id == doc_id
                    &&& request.version == document.version
                    &&& request.request == document.requests.restarted(
                        Feature::SemanticTokens,
                    ).semantic_tokens
                    &&& request.servers@.len() > 0
                    &&& all_asked(
                        request.servers@,
                        document.servers@,
                        use_range,
                        asked_range(text@, views@, doc_id, use_range),
                        previous@,
                    )
                },
                None => askable(document.servers@, use_range).len() == 0,
            }
        } else {
            r is None && final(documents)@ == old(documents)@
        },
{
    if !enabled {
        return None;
    }
    let use_range = text.len_lines() > SEMANTIC_TOKENS_FULL_LINE_LIMIT;
    proof {
        lemma_chosen_view(views@, doc_id);
    }
    let window: Option<(usize, usize)> = match choose_view(views, doc_id) {
        Some(view) => Some((text.char_to_line(view.anchor), view.height)),
        None => None,
    };
    let range = semantic_tokens_request_range(
        text,
        if use_range {
            window
        } else {
            None
        },
    );
    assert((range.0 as int, range.1 as int) == asked_range(text@, views@, doc_id, use_range));
    match documents.get_mut(doc_id) {
        Some(document) => {
            let request = document.requests.restart(Feature::SemanticTokens);
            let servers = plan_tokens_requests(&document.servers, use_range, range, previous);
            if servers.len() == 0 {
                None
            } else {
                Some(SemanticTokensRequest { doc_id, version: document.version, request, servers })
            }
        },
        None => None,
    }
}

/// All tokens of a document, or a first part of them.
#[derive(Debug)]
pub enum TokensAnswer<T> {
    Tokens { data: Vec<T>, result_id: Option<String> },
    Partial { data: Vec<T> },
}

/// The tokens of an answer, and the id by which changes to them can be asked for.
pub fn semantic_result_data<T>(answer: Option<TokensAnswer<T>>) -> (r: (Vec<T>, Option<String>))
    ensures
        match answer {
            Some(TokensAnswer::Tokens { data, result_id }) => r == (data, result_id),
            Some(TokensAnswer::Partial { data }) => r.0 == data && r.1 is None,
            None => r.0@.len() == 0 && r.1 is None,
        },
{
    match answer {
        Some(TokensAnswer::Tokens { data, result_id }) => (data, result_id),
        Some(TokensAnswer::Partial { data }) => (data, None),
        None => (Vec::new(), None),
    }
}

/// What has changed since an earlier answer. `applied` are the earlier tokens with the changes
/// made, where they can be made.
#[derive(Debug)]
#[allow(inconsistent_fields)]
pub enum DeltaAnswer<T> {
    Tokens { data: Vec<T>, result_id: Option<String> },
    TokensDelta { applied: Option<Vec<T>>, result_id: Option<String> },
    PartialTokensDelta { applied: Option<Vec<T>> },
}

/// The tokens after the changes; none if the changes do not fit the earlier tokens.
pub fn semantic_delta_result_data<T>(answer: DeltaAnswer<T>) -> (r: Option<
    (Vec<T>, Option<String>),
>)
    ensures
        r == match answer {
            DeltaAnswer::Tokens { data, result_id } => Some((data, result_id)),
            DeltaAnswer::TokensDelta { applied: Some(data), result_id } => Some((data, result_id)),
            DeltaAnswer::PartialTokensDelta { applied: Some(data) } => Some((data, None::<String>)),
            _ => None,
        },
{
    match answer {
        DeltaAnswer::Tokens { data, result_id } => Some((data, result_id)),
        DeltaAnswer::TokensDelta { applied: Some(data), result_id } => Some((data, result_id)),
        DeltaAnswer::PartialTokensDelta { applied: Some(data) } => Some((data, None)),
        _ => None,
    }
}

/// The tokens that a request for changes gives. Where it gives none (it failed, it was answered
/// with nothing, or the changes do not fit) all tokens are asked for.
pub fn delta_or_full<T>(answer: Result<Option<DeltaAnswer<T>>, String>) -> (r: Option<
    (Vec<T>, Option<String>),
>)
    ensures
        r == match answer {
            Ok(Some(DeltaAnswer::Tokens { data, result_id })) => Some((data, result_id)),
            Ok(Some(DeltaAnswer::TokensDelta { applied: Some(data), result_id })) => Some(
                (data, result_id),
            ),
            Ok(Some(DeltaAnswer::PartialTokensDelta { applied: Some(data) })) => Some(
                (data, None::<String>),
            ),
            _ => None,
        },
{
    match answer {
        Ok(Some(changes)) => semantic_delta_result_data(changes),
        _ => None,
    }
}

/// The view that counts is the last of the document that has the focus, or the last of the
/// document if none has; there is one exactly if the document is shown.
pub proof fn law_the_focused_view_counts(views: Seq<ViewWindow>, doc: u64)
    ensures
        match chosen_view(views, doc) {
            Some(view) => exists|i: int|
                {
                    &&& 0 <= i < views.len()
                    &&& #[trigger] views[i] == view
                    &&& view.doc == doc
                    &&& forall|j: int|
                        0 <= j < views.len() && (#[trigger] views[j]).doc == doc
                            && views[j].focused ==> view.focused && j <= i
                    &&& !view.focused ==> forall|j: int|
                        i < j < views.len() ==> (#[trigger] views[j]).doc != doc
                },
            None => forall|i: int| 0 <= i < views.len() ==> (#[trigger] views[i]).doc != doc,
        },
    decreases views.len(),
{
    if views.len() > 0 {
        let front = views.drop_last();
        law_the_focused_view_counts(front, doc);
        assert forall|i: int| 0 <= i < front.len() implies #[trigger] views[i] == front[i] by {}
        let n = views.len() - 1;
        assert(views[n] == views.last());
        match chosen_view(front, doc) {
            Some(view) => {
                let i = choose|i: int|
                    {
                        &&& 0 <= i < front.len()
                        &&& #[trigger] front[i] == view
                        &&& view.doc == doc
                        &&& forall|j: int|
                            0 <= j < front.len() && (#[trigger] front[j]).doc == doc
                                && front[j].focused ==> view.focused && j <= i
                        &&& !view.focused ==> forall|j: int|
                            i < j < front.len() ==> (#[trigger] front[j]).doc != doc
                    };
                assert(views[i] == view);
                if views.last().doc != doc || (view.focused && !views.last().focused) {
                    assert forall|j: int|
                        0 <= j < views.len() && (#[trigger] views[j]).doc == doc
                            && views[j].focused implies view.focused && j <= i by {
                        if j < n {
                            assert(front[j] == views[j]);
                        }
                    }
                    if !view.focused {
                        assert forall|j: int| i < j < views.len() implies (#[trigger] views[j]).doc
                            != doc by {
                            if j < n {
                                assert(front[j] == views[j]);
                            }
                        }
                    }
                } else {
                    assert forall|j: int|
                        0 <= j < views.len() && (#[trigger] views[j]).doc == doc
                            && views[j].focused implies views.last().focused && j <= n by {
                        if j < n {
                            assert(front[j] == views[j]);
                        }
                    }
                }
            },
            None => {
                assert forall|j: int|
                    0 <= j < n implies (#[trigger] views[j]).doc != doc by {
                    assert(front[j] == views[j]);
                }
            },
        }
    }
}

/// What is asked about holds the line at the top and as many lines below it as are shown, each
/// whole, and nothing else; without a view it is the whole text.
pub proof fn law_the_shown_lines_are_asked_about(
    t: Seq<char>,
    first_line: usize,
    height: usize,
    line: int,
)
    requires
        first_line < lines::line_starts(t).len(),
        0 <= line < lines::line_starts(t).len(),
    ensures
        request_range(t, None) == (0int, t.len() as int),
        ({
            let (from, to) = request_range(t, Some((first_line, height)));
            let (start, next) = (
                lines::line_starts(t)[line] as int,
                lines::next_start(t, line) as int,
            );
            &&& 0 <= from <= to <= t.len()
            &&& first_line <= line <= first_line + height ==> from <= start && next <= to
            &&& line < first_line ==> next <= from
            &&& line > first_line + height ==> to <= start
        }),
{
    lines::lemma_line_starts(t);
    let starts = lines::line_starts(t);
    let (f, e) = (first_line as int, first_line + height + 1);
    if line < f {
        assert(starts[line + 1] <= starts[f]);
    } else {
        assert(starts[f] <= starts[line]);
    }
    if e < starts.len() {
        assert(starts[f] <= starts[e]);
        if line < e {
            assert(starts[line + 1] <= starts[e]);
        } else {
            assert(starts[e] <= starts[line]);
        }
    }
}

/// A server is asked only for what it can tell: the range if it can and that is wanted, else what
/// has changed since an answer that is known, else everything.
pub proof fn law_servers_are_asked_for_what_they_can_tell(
    server: LspServer,
    use_range: bool,
    range: (int, int),
    previous: Map<u64, String>,
    r: TokensRequest,
)
    requires
        tokens_request(server, use_range, range, previous, r),
    ensures
        server.semantic_tokens_legend,
        r is Range <==> use_range && server.semantic_tokens_range,
        r matches TokensRequest::Range { from, to } ==> from == range.0 && to == range.1,
        r is Delta ==> server.semantic_tokens_full && server.semantic_tokens_delta
            && previous.dom().contains(server.id),
        r matches TokensRequest::Delta { previous_result_id } ==> previous_result_id@
            == previous[server.id]@,
        r is Full ==> server.semantic_tokens_full && !(server.semantic_tokens_delta
            && previous.dom().contains(server.id)),
        !cannot_ask(server, use_range),
{
}

/// Long documents are asked about where their view stands, others as a whole.
pub proof fn law_long_documents_are_asked_about_in_part(
    t: Seq<char>,
    views: Seq<ViewWindow>,
    doc: u64,
    view: ViewWindow,
)
    requires
        chosen_view(views, doc) == Some(view),
        view.anchor <= t.len(),
        lines::line_starts(t).len() <= usize::MAX,
    ensures
        asked_range(t, views, doc, false) == (0int, t.len() as int),
        ({
            let (from, to) = asked_range(t, views, doc, true);
            from <= view.anchor <= to
        }),
        forall|other: u64|
            (forall|i: int| 0 <= i < views.len() ==> (#[trigger] views[i]).doc != other)
                ==> #[trigger] asked_range(t, views, other, true) == (0int, t.len() as int),
{
    lines::law_positions_have_a_line(t, view.anchor as nat);
    lines::lemma_line_starts(t);
    let line = lines::line_of(t, view.anchor as nat);
    law_the_shown_lines_are_asked_about(t, line as usize, view.height, line);
    assert forall|other: u64|
        (forall|i: int|
            0 <= i < views.len() ==> (#[trigger] views[i]).doc != other) implies #[trigger] asked_range(
        t,
        views,
        other,
        true,
    ) == (0int, t.len() as int) by {
        law_the_focused_view_counts(views, other);
        if chosen_view(views, other) is Some {
            let i = choose|i: int|
                {
                    &&& 0 <= i < views.len()
                    &&& #[trigger] views[i] == chosen_view(views, other)->0
                    &&& chosen_view(views, other)->0.doc == other
                    &&& forall|j: int|
                        0 <= j < views.len() && (#[trigger] views[j]).doc == other
                            && views[j].focused ==> chosen_view(views, other)->0.focused && j <= i
                    &&& !chosen_view(views, other)->0.focused ==> forall|j: int|
                        i < j < views.len() ==> (#[trigger] views[j]).doc != other
                };
            assert(views[i].doc == other);
        }
    }
}

} // verus!
