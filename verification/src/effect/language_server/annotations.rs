//! What servers have to say, shown beside the text: code lenses, links, colors, inlay hints.

use unicode_segmentation::UnicodeSegmentation;
use unicode_width::UnicodeWidthStr;
use vstd::prelude::*;

use crate::collections::IdMap;
use crate::effect::language_server::requests;
use crate::effect::language_server::requests::{accepts_answer, Feature, LspDocument};
use crate::lines;
use crate::lines::Text;
use crate::sorting;
use crate::sorting::{sort, Ranked};
use crate::text;

verus! {

/// An item of an answer, and where it belongs if that is in the text.
#[derive(Debug)]
pub struct Located<L> {
    pub server_id: u64,
    /// From where to where.
    pub range: Option<(usize, usize)>,
    /// Whether the item came with what it does (a command, a target).
    pub complete: bool,
    pub item: L,
}

/// An item that is kept with a document.
#[derive(Debug)]
pub struct Kept<L> {
    pub server_id: u64,
    pub range: (usize, usize),
    /// Whether it is known what the item does.
    pub resolved: bool,
    pub item: L,
}

/// The items whose place is in the text.
pub open spec fn kept<L>(items: Seq<Located<L>>) -> Seq<Kept<L>>
    decreases items.len(),
{
    if items.len() == 0 {
        seq![]
    } else {
        let rest = kept(items.drop_last());
        let last = items.last();
        match last.range {
            Some(range) => rest.push(
                Kept {
                    server_id: last.server_id,
                    range,
                    resolved: last.complete,
                    item: last.item,
                },
            ),
            None => rest,
        }
    }
}

fn keep<L>(items: Vec<Located<L>>) -> (r: Vec<Kept<L>>)
    ensures
        r@ == kept(items@),
{
    let mut out: Vec<Kept<L>> = Vec::new();
    let ghost all = items@;
    assert(all.take(0) =~= seq![]);
    for item in it: items
        invariant
            it.seq() == all,
            out@ == kept(all.take(it.index())),
    {
        assert(all.take(it.index() + 1).drop_last() =~= all.take(it.index()));
        assert(all.take(it.index() + 1).last() == item);
        match item.range {
            Some(range) => {
                out.push(
                    Kept {
                        server_id: item.server_id,
                        range,
                        resolved: item.complete,
                        item: item.item,
                    },
                );
            },
            None => {},
        }
    }
    assert(all.take(all.len() as int) =~= all);
    out
}

/// The code lenses that a document gets from an answer, if it still counts.
pub fn apply_code_lenses<L>(
    enabled: bool,
    documents: &IdMap<u64, LspDocument>,
    doc_id: u64,
    expected_version: i32,
    request: u64,
    lenses: Vec<Located<L>>,
) -> (r: Option<Vec<Kept<L>>>)
    requires
        documents.wf(),
    ensures
        match r {
            Some(set) => enabled && requests::counts(
                documents@,
                doc_id,
                expected_version,
                Feature::CodeLens,
                request,
            ) && set@ == kept(lenses@),
            None => !(enabled && requests::counts(
                documents@,
                doc_id,
                expected_version,
                Feature::CodeLens,
                request,
            )),
        },
{
    if accepts_answer(enabled, documents, doc_id, expected_version, Feature::CodeLens, request) {
        Some(keep(lenses))
    } else {
        None
    }
}

/// The links that a document gets from an answer, if it still counts.
pub fn apply_document_links<L>(
    documents: &IdMap<u64, LspDocument>,
    doc_id: u64,
    expected_version: i32,
    request: u64,
    links: Vec<Located<L>>,
) -> (r: Option<Vec<Kept<L>>>)
    requires
        documents.wf(),
    ensures
        match r {
            Some(set) => requests::counts(
                documents@,
                doc_id,
                expected_version,
                Feature::DocumentLinks,
                request,
            ) && set@ == kept(links@),
            None => !requests::counts(
                documents@,
                doc_id,
                expected_version,
                Feature::DocumentLinks,
                request,
            ),
        },
{
    if accepts_answer(true, documents, doc_id, expected_version, Feature::DocumentLinks, request) {
        Some(keep(links))
    } else {
        None
    }
}

/// A lens of a document as far as it is shown.
#[derive(Debug)]
pub struct LensLabel {
    pub from: usize,
    /// What it is called, once that is known.
    pub title: Option<String>,
}

/// The line that a lens is shown above.
pub open spec fn lens_line(t: Seq<char>, lens: LensLabel) -> int {
    lines::line_of(
        t,
        if lens.from < t.len() {
            lens.from as nat
        } else {
            t.len()
        },
    )
}

/// The lines with lenses and what is shown there: the titles of lenses that follow each other on
/// one line are joined.
pub open spec fn lens_labels(t: Seq<char>, lenses: Seq<LensLabel>) -> Seq<(int, Seq<char>)>
    decreases lenses.len(),
{
    if lenses.len() == 0 {
        seq![]
    } else {
        let rest = lens_labels(t, lenses.drop_last());
        let line = lens_line(t, lenses.last());
        match lenses.last().title {
            None => rest,
            Some(title) => if rest.len() > 0 && rest.last().0 == line {
                rest.drop_last().push((line, rest.last().1 + "  |  "@ + title@))
            } else {
                rest.push((line, title@))
            },
        }
    }
}

/// A text that is shown above a line.
#[derive(Debug)]
pub struct LensAnnotation {
    pub char_idx: usize,
    pub text: String,
}

pub open spec fn labels_view(labels: Seq<(usize, String)>) -> Seq<(int, Seq<char>)> {
    labels.map_values(|label: (usize, String)| (label.0 as int, label.1@))
}

fn collect_labels(text: &Text, lenses: &Vec<LensLabel>) -> (r: Vec<(usize, String)>)
    ensures
        labels_view(r@) == lens_labels(text@, lenses@),
        forall|i: int|
            0 <= i < r@.len() ==> (#[trigger] r@[i]).0 < lines::line_starts(text@).len(),
{
    let mut labels: Vec<(usize, String)> = Vec::new();
    let mut i: usize = 0;
    assert(lenses@.take(0) =~= seq![]);
    assert(labels_view(labels@) =~= seq![]);
    while i < lenses.len()
        invariant
            i <= lenses@.len(),
            labels_view(labels@) == lens_labels(text@, lenses@.take(i as int)),
            forall|j: int|
                0 <= j < labels@.len() ==> (#[trigger] labels@[j]).0 < lines::line_starts(
                    text@,
                ).len(),
        decreases lenses@.len() - i,
    {
        assert(lenses@.take(i + 1).drop_last() =~= lenses@.take(i as int));
        let ghost before = labels@;
        let lens = &lenses[i];
        if let Some(title) = &lens.title {
            let at: usize = if lens.from < text.len_chars() {
                lens.from
            } else {
                text.len_chars()
            };
            let line = text.char_to_line(at);
            let same = labels.len() > 0 && labels[labels.len() - 1].0 == line;
            assert(labels_view(before).len() == before.len());
            if same {
                let (last_line, mut shown) = match labels.pop() {
                    Some(label) => label,
                    None => (0, String::new()),
                };
                shown.append("  |  ");
                shown.append(title.as_str());
                labels.push((line, shown));
                assert(labels_view(labels@) =~= labels_view(before).drop_last().push(
                    (line as int, labels_view(before).last().1 + "  |  "@ + title@),
                ));
            } else {
                labels.push((line, title.clone()));
                assert(labels_view(labels@) =~= labels_view(before).push((line as int, title@)));
            }
        }
        i += 1;
    }
    assert(lenses@.take(i as int) =~= lenses@);
    labels
}

/// What is shown above the lines of a document for its lenses.
pub fn code_lens_annotations(text: &Text, lenses: &Vec<LensLabel>) -> (r: Vec<LensAnnotation>)
    ensures
        r@.map_values(|a: LensAnnotation| (a.char_idx as int, a.text@)) == lens_labels(
            text@,
            lenses@,
        ).map_values(
            |label: (int, Seq<char>)| (lines::line_starts(text@)[label.0] as int, label.1),
        ),
{
    let labels = collect_labels(text, lenses);
    let mut annotations: Vec<LensAnnotation> = Vec::new();
    let mut i: usize = 0;
    assert(labels_view(labels@).len() == labels@.len());
    while i < labels.len()
        invariant
            i <= labels@.len(),
            annotations@.len() == i,
            forall|j: int|
                0 <= j < labels@.len() ==> (#[trigger] labels@[j]).0 < lines::line_starts(
                    text@,
                ).len(),
            forall|j: int|
                0 <= j < i ==> (#[trigger] annotations@[j]).char_idx == lines::line_starts(
                    text@,
                )[labels@[j].0 as int] && annotations@[j].text@ == labels@[j].1@,
        decreases labels@.len() - i,
    {
        annotations.push(
            LensAnnotation {
                char_idx: text.line_to_char(labels[i].0),
                text: labels[i].1.clone(),
            },
        );
        i += 1;
    }
    assert(annotations@.map_values(|a: LensAnnotation| (a.char_idx as int, a.text@))
        =~= labels_view(labels@).map_values(
        |label: (int, Seq<char>)| (lines::line_starts(text@)[label.0] as int, label.1),
    ));
    annotations
}

/// What an answer about colors does to a document.
#[derive(Debug)]
pub enum ColorUpdate<C> {
    Ignore,
    Clear,
    /// The colors by where they stand.
    Show(Vec<(usize, C)>),
}

/// How the texts for lenses look.
pub fn lens_style() -> (r: &'static str)
    ensures
        r@ == "ui.virtual"@,
{
    "ui.virtual"
}

/// The views that show a document, where each view comes with the document that it shows.
pub open spec fn views_of(views: Seq<(u64, u64)>, doc_id: u64) -> Seq<u64>
    decreases views.len(),
{
    if views.len() == 0 {
        seq![]
    } else if views.last().1 == doc_id {
        views_of(views.drop_last(), doc_id).push(views.last().0)
    } else {
        views_of(views.drop_last(), doc_id)
    }
}

/// The views in which the texts for the lenses of a document are put in the place of older ones:
/// all that show it.
pub fn refresh_code_lens_annotations(views: &Vec<(u64, u64)>, doc_id: u64) -> (r: Vec<u64>)
    ensures
        r@ == views_of(views@, doc_id),
{
    let mut shown: Vec<u64> = Vec::new();
    let mut i: usize = 0;
    assert(views@.take(0) =~= seq![]);
    while i < views.len()
        invariant
            i <= views@.len(),
            shown@ == views_of(views@.take(i as int), doc_id),
        decreases views@.len() - i,
    {
        assert(views@.take(i + 1).drop_last() =~= views@.take(i as int));
        if views[i].1 == doc_id {
            shown.push(views[i].0);
        }
        i += 1;
    }
    assert(views@.take(i as int) =~= views@);
    shown
}

/// What an answer about colors does: swatches are shown in the order of the text.
pub fn attach_document_colors<C>(
    enabled: bool,
    documents: &IdMap<u64, LspDocument>,
    doc_id: u64,
    expected_version: i32,
    request: u64,
    colors: Vec<(usize, C)>,
) -> (r: ColorUpdate<C>)
    requires
        documents.wf(),
    ensures
        ({
            let counts = enabled && requests::counts(
                documents@,
                doc_id,
                expected_version,
                Feature::DocumentColors,
                request,
            );
            match r {
                ColorUpdate::Ignore => !counts,
                ColorUpdate::Clear => counts && colors@.len() == 0,
                ColorUpdate::Show(swatches) => counts && colors@.len() > 0 && swatches@
                    == sorting::sorted(colors@),
            }
        }),
{
    if !accepts_answer(
        enabled,
        documents,
        doc_id,
        expected_version,
        Feature::DocumentColors,
        request,
    ) {
        return ColorUpdate::Ignore;
    }
    if colors.len() == 0 {
        return ColorUpdate::Clear;
    }
    ColorUpdate::Show(sort(colors))
}

/// A position as servers give it.
#[derive(Debug, Clone, Copy, PartialEq, Eq, Structural)]
pub struct Position {
    pub line: u32,
    pub character: u32,
}

impl Ranked for Position {
    open spec fn at_most(&self, other: &Self) -> bool {
        self.line < other.line || self.line == other.line && self.character <= other.character
    }

    proof fn total(a: &Self, b: &Self) {
    }

    proof fn transitive(a: &Self, b: &Self, c: &Self) {
    }

    fn not_after(&self, other: &Self) -> (r: bool) {
        self.line < other.line || self.line == other.line && self.character <= other.character
    }
}

/// How many columns a text takes on the screen.
pub uninterp spec fn display_width(text: Seq<char>) -> usize;

/// `UnicodeWidthStr::width` of the crate unicode-width: the columns that a text takes, which
/// depend on the text alone. How they are counted is not said.
#[verifier::external_body]
fn width_of(text: &str) -> (r: usize)
    ensures
        r == display_width(text@),
{
    text.width()
}

/// What a reader takes for the characters of a text.
pub uninterp spec fn grapheme_clusters(text: Seq<char>) -> Seq<Seq<char>>;

/// `UnicodeSegmentation::graphemes` of the crate unicode-segmentation, for extended grapheme
/// clusters: the text cut into clusters, in order, which depend on the text alone. Where it is
/// cut is not said.
#[verifier::external_body]
fn graphemes_of(text: &str) -> (r: Vec<String>)
    ensures
        text::texts(r@) == grapheme_clusters(text@),
{
    text.graphemes(true).map(str::to_owned).collect()
}

/// Texts one behind the other.
pub open spec fn concatenated(parts: Seq<Seq<char>>) -> Seq<char>
    decreases parts.len(),
{
    if parts.len() == 0 {
        seq![]
    } else {
        concatenated(parts.drop_last()) + parts.last()
    }
}

fn concat(parts: &Vec<String>, count: usize) -> (r: String)
    requires
        count <= parts@.len(),
    ensures
        r@ == concatenated(text::texts(parts@).take(count as int)),
{
    let mut out = String::new();
    let mut i: usize = 0;
    assert(text::texts(parts@).take(0) =~= seq![]);
    while i < count
        invariant
            i <= count <= parts@.len(),
            out@ == concatenated(text::texts(parts@).take(i as int)),
        decreases count - i,
    {
        assert(text::texts(parts@).take(i + 1).drop_last() =~= text::texts(parts@).take(i as int));
        out.append(parts[i].as_str());
        i += 1;
    }
    out
}

/// The label of a hint, in one piece or in several.
#[derive(Debug)]
pub enum InlayHintLabel {
    Text(String),
    Parts(Vec<String>),
}

impl InlayHintLabel {
    pub open spec fn whole(self) -> Seq<char> {
        match self {
            InlayHintLabel::Text(text) => text@,
            InlayHintLabel::Parts(parts) => concatenated(text::texts(parts@)),
        }
    }

    pub fn text(&self) -> (r: String)
        ensures
            r@ == self.whole(),
    {
        match self {
            InlayHintLabel::Text(text) => text.clone(),
            InlayHintLabel::Parts(parts) => {
                assert(text::texts(parts@).take(parts@.len() as int) =~= text::texts(parts@));
                concat(parts, parts.len())
            },
        }
    }
}

/// The columns of the first `count` clusters.
pub open spec fn columns(clusters: Seq<Seq<char>>, count: nat) -> nat
    decreases count,
{
    if count == 0 {
        0
    } else {
        columns(clusters, (count - 1) as nat) + display_width(clusters[count - 1]) as nat
    }
}

/// The cluster with which a label grows too wide; the first if there is none.
pub open spec fn first_too_wide(clusters: Seq<Seq<char>>, limit: nat, from: nat) -> nat
    decreases clusters.len() - from,
{
    if from >= clusters.len() {
        0
    } else if columns(clusters, from + 1) > limit {
        from
    } else {
        first_too_wide(clusters, limit, from + 1)
    }
}

/// A label that is no wider than the limit, or what fits of it and a dot.
pub open spec fn shortened(label: Seq<char>, limit: Option<usize>) -> Seq<char> {
    match limit {
        Some(limit) if display_width(label) > limit => {
            let clusters = grapheme_clusters(label);
            concatenated(clusters.take(first_too_wide(clusters, limit as nat, 0) as int)).push('.')
        },
        _ => label,
    }
}

/// How many of the clusters of a label fit; none if all of them do.
pub fn fitting_clusters(clusters: &Vec<String>, limit: usize) -> (r: usize)
    ensures
        r == first_too_wide(text::texts(clusters@), limit as nat, 0),
        r <= clusters@.len(),
{
    let mut used: usize = 0;
    let mut i: usize = 0;
    while i < clusters.len()
        invariant
            i <= clusters@.len(),
            used <= limit,
            used == columns(text::texts(clusters@), i as nat),
            first_too_wide(text::texts(clusters@), limit as nat, 0) == first_too_wide(
                text::texts(clusters@),
                limit as nat,
                i as nat,
            ),
        decreases clusters@.len() - i,
    {
        let width = width_of(clusters[i].as_str());
        if width > limit - used {
            return i;
        }
        used = used + width;
        i += 1;
    }
    0
}

/// Cuts a label that is too wide.
pub fn shorten_label(label: String, limit: Option<usize>) -> (r: String)
    ensures
        r@ == shortened(label@, limit),
{
    match limit {
        Some(limit) => {
            if width_of(label.as_str()) > limit {
                let clusters = graphemes_of(label.as_str());
                let fitting = fitting_clusters(&clusters, limit);
                let mut cut = concat(&clusters, fitting);
                cut.push('.');
                cut
            } else {
                label
            }
        },
        None => label,
    }
}

#[derive(Debug, Clone, Copy, PartialEq, Eq, Structural)]
pub enum InlayHintKind {
    Type,
    Parameter,
}

/// A hint that is shown inside a line.
#[derive(Debug)]
pub struct InlayHint {
    /// Where it is shown, if that is in the text.
    pub char_idx: Option<usize>,
    pub label: InlayHintLabel,
    pub kind: Option<InlayHintKind>,
    pub padding_left: Option<bool>,
    pub padding_right: Option<bool>,
}

/// The hints of a view, by what they are about, and the blanks around them.
#[derive(Debug)]
pub struct InlayHints {
    pub type_inlay_hints: Vec<(usize, String)>,
    pub parameter_inlay_hints: Vec<(usize, String)>,
    pub other_inlay_hints: Vec<(usize, String)>,
    pub padding_before_inlay_hints: Vec<(usize, String)>,
    pub padding_after_inlay_hints: Vec<(usize, String)>,
    /// All of them as they came, also those without a place, in the order of their positions.
    pub lsp_hints: Vec<(Position, InlayHint)>,
}

/// The hints of a kind that have a place.
pub open spec fn hints_of(
    hints: Seq<(Position, InlayHint)>,
    kind: Option<InlayHintKind>,
    limit: Option<usize>,
) -> Seq<(int, Seq<char>)>
    decreases hints.len(),
{
    if hints.len() == 0 {
        seq![]
    } else {
        let rest = hints_of(hints.drop_last(), kind, limit);
        let hint = hints.last().1;
        match hint.char_idx {
            Some(at) if hint.kind == kind => rest.push(
                (at as int, shortened(hint.label.whole(), limit)),
            ),
            _ => rest,
        }
    }
}

/// The blanks in front of the hints, or behind them.
pub open spec fn blanks_of(hints: Seq<(Position, InlayHint)>, before: bool) -> Seq<
    (int, Seq<char>),
>
    decreases hints.len(),
{
    if hints.len() == 0 {
        seq![]
    } else {
        let rest = blanks_of(hints.drop_last(), before);
        let hint = hints.last().1;
        let padding = if before {
            hint.padding_left
        } else {
            hint.padding_right
        };
        match hint.char_idx {
            Some(at) if padding == Some(true) => rest.push((at as int, " "@)),
            _ => rest,
        }
    }
}

impl InlayHints {
    /// The hints are sorted out.
    pub open spec fn sorts_out(
        self,
        hints: Seq<(Position, InlayHint)>,
        limit: Option<usize>,
    ) -> bool {
        &&& labels_view(self.type_inlay_hints@) == hints_of(hints, Some(InlayHintKind::Type), limit)
        &&& labels_view(self.parameter_inlay_hints@) == hints_of(
            hints,
            Some(InlayHintKind::Parameter),
            limit,
        )
        &&& labels_view(self.other_inlay_hints@) == hints_of(hints, None, limit)
        &&& labels_view(self.padding_before_inlay_hints@) == blanks_of(hints, true)
        &&& labels_view(self.padding_after_inlay_hints@) == blanks_of(hints, false)
    }

    /// These are the hints, sorted out and as they came.
    pub open spec fn shows(
        self,
        hints: Seq<(Position, InlayHint)>,
        limit: Option<usize>,
    ) -> bool {
        self.sorts_out(hints, limit) && self.lsp_hints@ == hints
    }

    fn new() -> (r: InlayHints)
        ensures
            r.sorts_out(seq![], None),
            r.type_inlay_hints@.len() == 0,
            r.parameter_inlay_hints@.len() == 0,
            r.other_inlay_hints@.len() == 0,
            r.padding_before_inlay_hints@.len() == 0,
            r.padding_after_inlay_hints@.len() == 0,
    {
        let r = InlayHints {
            type_inlay_hints: Vec::new(),
            parameter_inlay_hints: Vec::new(),
            other_inlay_hints: Vec::new(),
            padding_before_inlay_hints: Vec::new(),
            padding_after_inlay_hints: Vec::new(),
            lsp_hints: Vec::new(),
        };
        assert(labels_view(r.type_inlay_hints@) =~= seq![]);
        assert(labels_view(r.parameter_inlay_hints@) =~= seq![]);
        assert(labels_view(r.other_inlay_hints@) =~= seq![]);
        assert(labels_view(r.padding_before_inlay_hints@) =~= seq![]);
        assert(labels_view(r.padding_after_inlay_hints@) =~= seq![]);
        r
    }
}

fn push_label(labels: &mut Vec<(usize, String)>, at: usize, label: String)
    ensures
        labels_view(final(labels)@) == labels_view(old(labels)@).push((at as int, label@)),
{
    labels.push((at, label));
    assert(labels_view(labels@) =~= labels_view(old(labels)@).push((at as int, label@)));
}

fn sort_out(hints: Vec<(Position, InlayHint)>, limit: Option<usize>) -> (r: InlayHints)
    ensures
        r.shows(hints@, limit),
{
    let mut out = InlayHints::new();
    let mut i: usize = 0;
    assert(hints@.take(0) =~= seq![]);
    assert(hints_of(hints@.take(0), None, limit) == hints_of(hints@.take(0), None, None));
    while i < hints.len()
        invariant
            i <= hints@.len(),
            out.sorts_out(hints@.take(i as int), limit),
        decreases hints@.len() - i,
    {
        assert(hints@.take(i + 1).drop_last() =~= hints@.take(i as int));
        let hint = &hints[i].1;
        if let Some(at) = hint.char_idx {
            let label = shorten_label(hint.label.text(), limit);
            if let Some(true) = hint.padding_left {
                push_label(&mut out.padding_before_inlay_hints, at, " ".to_owned());
            }
            match hint.kind {
                Some(InlayHintKind::Type) => {
                    push_label(&mut out.type_inlay_hints, at, label);
                },
                Some(InlayHintKind::Parameter) => {
                    push_label(&mut out.parameter_inlay_hints, at, label);
                },
                None => {
                    push_label(&mut out.other_inlay_hints, at, label);
                },
            }
            if let Some(true) = hint.padding_right {
                push_label(&mut out.padding_after_inlay_hints, at, " ".to_owned());
            }
        }
        i += 1;
    }
    assert(hints@.take(i as int) =~= hints@);
    out.lsp_hints = hints;
    out
}

/// The hints that a view gets from an answer, in the order of the text: sorted out, with those that
/// have no place left out and long labels cut, and as they came. None where hints are switched off, or the view or the
/// document is gone.
pub fn apply_inlay_hints(
    enabled: bool,
    view_exists: bool,
    document_exists: bool,
    hints: Vec<(Position, InlayHint)>,
    length_limit: Option<usize>,
) -> (r: Option<InlayHints>)
    ensures
        match r {
            Some(shown) => enabled && view_exists && document_exists && shown.shows(
                sorting::sorted(hints@),
                length_limit,
            ),
            None => !(enabled && view_exists && document_exists),
        },
{
    if !enabled || !view_exists || !document_exists {
        return None;
    }
    let ordered = sort(hints);
    Some(sort_out(ordered, length_limit))
}

/// Items that belong into the text are kept, in order, each with its server, its range and whether
/// it came complete; the others are dropped.
pub proof fn law_items_in_the_text_are_kept<L>(items: Seq<Located<L>>, item: Located<L>)
    ensures
        kept(Seq::<Located<L>>::empty()).len() == 0,
        item.range is None ==> kept(items.push(item)) == kept(items),
        item.range matches Some(range) ==> {
            let after = kept(items.push(item));
            &&& after.len() == kept(items).len() + 1
            &&& after.take(kept(items).len() as int) == kept(items)
            &&& after.last().server_id == item.server_id
            &&& after.last().range == range
            &&& after.last().resolved == item.complete
            &&& after.last().item == item.item
        },
{
    assert(items.push(item).drop_last() =~= items);
    assert(kept(items.push(item)).take(kept(items).len() as int) =~= kept(items));
}

/// Lenses without a title show nothing; one on the line of the label before is written behind it,
/// one on another line gets a label of its own.
pub proof fn law_lenses_of_a_line_share_a_label(
    t: Seq<char>,
    lenses: Seq<LensLabel>,
    lens: LensLabel,
)
    ensures
        lens_labels(t, Seq::<LensLabel>::empty()).len() == 0,
        ({
            let before = lens_labels(t, lenses);
            let after = lens_labels(t, lenses.push(lens));
            let at = if lens.from < t.len() {
                lens.from as nat
            } else {
                t.len()
            };
            let line = lines::line_of(t, at);
            &&& lens.title is None ==> after == before
            &&& lens.title matches Some(title) ==> if before.len() > 0 && before.last().0 == line {
                &&& after.len() == before.len()
                &&& after.drop_last() == before.drop_last()
                &&& after.last() == (line, before.last().1 + "  |  "@ + title@)
            } else {
                &&& after.len() == before.len() + 1
                &&& after.drop_last() == before
                &&& after.last() == (line, title@)
            }
        }),
{
    assert(lenses.push(lens).drop_last() =~= lenses);
    let before = lens_labels(t, lenses);
    let after = lens_labels(t, lenses.push(lens));
    assert(lens.title is Some && !(before.len() > 0 && before.last().0 == lens_line(t, lens))
        ==> after.drop_last() =~= before);
    assert(lens.title is Some && before.len() > 0 && before.last().0 == lens_line(t, lens)
        ==> after.drop_last() =~= before.drop_last());
}

/// The views that show a document are those with its id, and no others.
pub proof fn law_views_of_a_document(views: Seq<(u64, u64)>, doc_id: u64, view: u64)
    ensures
        views_of(views, doc_id).contains(view) <==> exists|i: int|
            0 <= i < views.len() && #[trigger] views[i] == (view, doc_id),
    decreases views.len(),
{
    if views.len() > 0 {
        let front = views.drop_last();
        law_views_of_a_document(front, doc_id, view);
        let rest = views_of(front, doc_id);
        let all = views_of(views, doc_id);
        assert(views[views.len() - 1] == views.last());
        if all.contains(view) {
            let k = all.index_of(view);
            if k < rest.len() {
                assert(rest[k] == view);
                let i = choose|i: int| 0 <= i < front.len() && #[trigger] front[i] == (view, doc_id);
                assert(views[i] == (view, doc_id));
            } else {
                assert(views[views.len() - 1] == (view, doc_id));
            }
        }
        if exists|i: int| 0 <= i < views.len() && #[trigger] views[i] == (view, doc_id) {
            let i = choose|i: int| 0 <= i < views.len() && #[trigger] views[i] == (view, doc_id);
            if i < front.len() {
                assert(front[i] == (view, doc_id));
                let k = rest.index_of(view);
                assert(all[k] == view);
            } else {
                assert(all[rest.len() as int] == view);
            }
        }
    }
}

/// Hints show where they belong, with the others of their kind, in order; those that belong
/// nowhere do not show.
pub proof fn law_hints_show_with_their_kind(
    hints: Seq<(Position, InlayHint)>,
    hint: (Position, InlayHint),
    kind: Option<InlayHintKind>,
    limit: Option<usize>,
)
    ensures
        hints_of(Seq::<(Position, InlayHint)>::empty(), kind, limit).len() == 0,
        ({
            let before = hints_of(hints, kind, limit);
            let after = hints_of(hints.push(hint), kind, limit);
            if hint.1.kind == kind && hint.1.char_idx is Some {
                &&& after.len() == before.len() + 1
                &&& after.drop_last() == before
                &&& after.last().0 == hint.1.char_idx->0
                &&& limit is None ==> after.last().1 == hint.1.label.whole()
            } else {
                after == before
            }
        }),
        ({
            let (front, back) = (blanks_of(hints, true), blanks_of(hints, false));
            let (front_after, back_after) = (
                blanks_of(hints.push(hint), true),
                blanks_of(hints.push(hint), false),
            );
            &&& hint.1.char_idx is Some && hint.1.padding_left == Some(true) ==> front_after
                == front.push((hint.1.char_idx->0 as int, " "@))
            &&& hint.1.char_idx is None || hint.1.padding_left != Some(true) ==> front_after == front
            &&& hint.1.char_idx is Some && hint.1.padding_right == Some(true) ==> back_after
                == back.push((hint.1.char_idx->0 as int, " "@))
            &&& hint.1.char_idx is None || hint.1.padding_right != Some(true) ==> back_after == back
        }),
{
    assert(hints.push(hint).drop_last() =~= hints);
    let before = hints_of(hints, kind, limit);
    let after = hints_of(hints.push(hint), kind, limit);
    if hint.1.kind == kind && hint.1.char_idx is Some {
        assert(after.drop_last() =~= before);
    }
}

/// A label that is too wide is cut behind as many whole clusters as fit, and gets a dot; with no
/// limit, or within it, it stays as it is.
pub proof fn law_long_labels_are_cut_to_fit(label: Seq<char>, limit: usize)
    ensures
        shortened(label, None) == label,
        display_width(label) <= limit ==> shortened(label, Some(limit)) == label,
        display_width(label) > limit ==> {
            let clusters = grapheme_clusters(label);
            let cut = shortened(label, Some(limit));
            &&& cut.len() > 0
            &&& cut.last() == '.'
            &&& exists|n: int|
                {
                    &&& 0 <= n <= clusters.len()
                    &&& cut.drop_last() == #[trigger] concatenated(clusters.take(n))
                    &&& columns(clusters, n as nat) <= limit
                    &&& n < clusters.len() && columns(clusters, clusters.len()) > limit ==> columns(
                        clusters,
                        (n + 1) as nat,
                    ) > limit
                }
        },
{
    if display_width(label) > limit {
        let clusters = grapheme_clusters(label);
        lemma_first_too_wide(clusters, limit as nat, 0);
        let n = first_too_wide(clusters, limit as nat, 0) as int;
        let cut = shortened(label, Some(limit));
        assert(cut.drop_last() =~= concatenated(clusters.take(n)));
    }
}

proof fn lemma_first_too_wide(clusters: Seq<Seq<char>>, limit: nat, from: nat)
    requires
        from <= clusters.len(),
        columns(clusters, from) <= limit,
    ensures
        first_too_wide(clusters, limit, from) <= clusters.len(),
        columns(clusters, first_too_wide(clusters, limit, from)) <= limit,
        first_too_wide(clusters, limit, from) < clusters.len() && columns(
            clusters,
            clusters.len(),
        ) > limit ==> columns(clusters, first_too_wide(clusters, limit, from) + 1) > limit,
    decreases clusters.len() - from,
{
    if from < clusters.len() && columns(clusters, from + 1) <= limit {
        lemma_first_too_wide(clusters, limit, from + 1);
    }
}

/// Positions are ordered by their lines, and within a line by their characters.
pub proof fn law_positions_are_ordered_by_line(a: Position, b: Position)
    ensures
        a.line < b.line ==> a.at_most(&b) && !b.at_most(&a),
        a.line == b.line ==> (a.at_most(&b) <==> a.character <= b.character),
        a.at_most(&b) && b.at_most(&a) ==> a == b,
{
}

} // verus!
