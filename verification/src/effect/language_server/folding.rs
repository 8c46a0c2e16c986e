//! Folds that language servers propose.

use vstd::prelude::*;

use crate::collections::IdMap;
use crate::effect::language_server::requests;
use crate::effect::language_server::requests::{accepts_answer, Feature, LspDocument};
use crate::lines;
use crate::lines::Text;
use crate::text;

verus! {

/// Folds are asked for only where they are shown and closed when a document is opened.
pub fn folding_ranges_are_needed(folding: bool, fold_on_open: bool) -> (r: bool)
    ensures
        r == (folding && fold_on_open),
{
    folding && fold_on_open
}

#[derive(Debug, Clone, Copy, PartialEq, Eq, Structural)]
pub enum FoldingRangeKind {
    Comment,
    Imports,
    Region,
}

/// A range that can be folded, as a server gives it.
#[derive(Debug, Clone, Copy, PartialEq, Eq, Structural)]
pub struct FoldingRange {
    pub start_line: usize,
    pub end_line: usize,
    /// Where the character on the first line is in the text, if it was given and can be found.
    pub start_position: Option<usize>,
    pub end_position: Option<usize>,
    pub kind: Option<FoldingRangeKind>,
}

/// A fold from one character to another, which belongs to it.
#[derive(Debug, Clone, Copy, PartialEq, Eq, Structural)]
pub struct FoldPoints {
    pub object: FoldObject,
    pub start: usize,
    pub end: usize,
}

/// What is folded.
#[derive(Debug, Clone, Copy, PartialEq, Eq, Structural)]
pub enum FoldObject {
    Comment,
    Imports,
    Region,
    /// The server does not say.
    Lsp,
}

impl FoldObject {
    pub open spec fn spec_name(self) -> Seq<char> {
        match self {
            FoldObject::Comment => "comment"@,
            FoldObject::Imports => "imports"@,
            FoldObject::Region => "region"@,
            FoldObject::Lsp => "lsp"@,
        }
    }

    /// The name of the text object.
    pub fn name(self) -> (r: &'static str)
        ensures
            r@ == self.spec_name(),
    {
        match self {
            FoldObject::Comment => "comment",
            FoldObject::Imports => "imports",
            FoldObject::Region => "region",
            FoldObject::Lsp => "lsp",
        }
    }
}

/// Where a fold begins: at the character that the server gave if it is on the line, or else at
/// the first character of the line that is not white space.
pub open spec fn fold_start(t: Seq<char>, range: FoldingRange) -> int {
    let start = lines::line_starts(t)[range.start_line as int] as int;
    match range.start_position {
        Some(at) if start <= at <= lines::line_end(t, range.start_line as int) => at as int,
        _ => start + match lines::first_solid(
            t,
            start,
            lines::next_start(t, range.start_line as int) as int,
        ) {
            Some(n) => n,
            None => 0,
        },
    }
}

/// Where a fold ends: in front of the character that the server gave, or of the end of the line.
pub open spec fn fold_end(t: Seq<char>, range: FoldingRange) -> int {
    let behind = match range.end_position {
        Some(at) => at as int,
        None => lines::line_end(t, range.end_line as int) as int,
    };
    if behind > 0 {
        behind - 1
    } else {
        0
    }
}

pub open spec fn fold_object(kind: Option<FoldingRangeKind>) -> FoldObject {
    match kind {
        Some(FoldingRangeKind::Comment) => FoldObject::Comment,
        Some(FoldingRangeKind::Imports) => FoldObject::Imports,
        Some(FoldingRangeKind::Region) => FoldObject::Region,
        None => FoldObject::Lsp,
    }
}

/// The range covers more than a line and lies in the text.
pub open spec fn foldable(t: Seq<char>, range: FoldingRange) -> bool {
    range.start_line < range.end_line < lines::line_starts(t).len()
}

/// The fold for a range; none for a range on one line or one that leaves the text.
pub fn folding_range_to_fold(text: &Text, range: &FoldingRange) -> (r: Option<FoldPoints>)
    ensures
        match r {
            Some(points) => {
                &&& foldable(text@, *range)
                &&& points.start == fold_start(text@, *range)
                &&& points.end == fold_end(text@, *range)
                &&& points.object == fold_object(range.kind)
                // Without a character for its end the fold reaches to the end of its last line.
                &&& range.end_position is None ==> points.end + 1 == lines::line_end(
                    text@,
                    range.end_line as int,
                )
            },
            None => !foldable(text@, *range),
        },
{
    proof {
        if foldable(text@, *range) {
            lemma_lines_in_order(text@, *range);
        }
    }
    if range.start_line >= range.end_line || range.end_line >= text.len_lines() {
        return None;
    }
    let line_start: usize = text.line_to_char(range.start_line);
    let line_end: usize = text.line_end_char_index(range.start_line);
    let given: Option<usize> = match range.start_position {
        Some(at) => if line_start <= at && at <= line_end {
            Some(at)
        } else {
            None
        },
        None => None,
    };
    let start: usize = match given {
        Some(at) => at,
        None => {
            let indent: usize = match text.first_non_whitespace_char(range.start_line) {
                Some(n) => n,
                None => 0,
            };
            let total: usize = text.len_chars();
            assert(line_start + indent <= total);
            line_start + indent
        },
    };
    let behind: usize = match range.end_position {
        Some(at) => at,
        None => text.line_end_char_index(range.end_line),
    };
    let object = match range.kind {
        Some(FoldingRangeKind::Comment) => FoldObject::Comment,
        Some(FoldingRangeKind::Imports) => FoldObject::Imports,
        Some(FoldingRangeKind::Region) => FoldObject::Region,
        None => FoldObject::Lsp,
    };
    Some(FoldPoints { object, start, end: behind.saturating_sub(1) })
}

/// The folds for the ranges that can be folded, in order.
pub open spec fn folds_for(t: Seq<char>, ranges: Seq<FoldingRange>) -> Seq<(FoldObject, int, int)>
    decreases ranges.len(),
{
    if ranges.len() == 0 {
        seq![]
    } else {
        let rest = folds_for(t, ranges.drop_last());
        if foldable(t, ranges.last()) {
            rest.push(
                (
                    fold_object(ranges.last().kind),
                    fold_start(t, ranges.last()),
                    fold_end(t, ranges.last()),
                ),
            )
        } else {
            rest
        }
    }
}

/// The folds of a document, from all that its servers gave.
pub fn collect_folds(text: &Text, ranges: &Vec<FoldingRange>) -> (r: Vec<FoldPoints>)
    ensures
        r@.map_values(|p: FoldPoints| (p.object, p.start as int, p.end as int)) == folds_for(text@, ranges@),
{
    let mut folds: Vec<FoldPoints> = Vec::new();
    let mut i: usize = 0;
    assert(ranges@.take(0) =~= seq![]);
    assert(folds@.map_values(|p: FoldPoints| (p.object, p.start as int, p.end as int)) =~= seq![]);
    while i < ranges.len()
        invariant
            i <= ranges@.len(),
            folds@.map_values(|p: FoldPoints| (p.object, p.start as int, p.end as int)) == folds_for(
                text@,
                ranges@.take(i as int),
            ),
        decreases ranges@.len() - i,
    {
        let ghost before = folds@;
        assert(ranges@.take(i + 1).drop_last() =~= ranges@.take(i as int));
        match folding_range_to_fold(text, &ranges[i]) {
            Some(points) => {
                folds.push(points);
                assert(folds@.map_values(|p: FoldPoints| (p.object, p.start as int, p.end as int))
                    =~= before.map_values(|p: FoldPoints| (p.object, p.start as int, p.end as int)).push(
                    (points.object, points.start as int, points.end as int),
                ));
            },
            None => {},
        }
        i += 1;
    }
    assert(ranges@.take(i as int) =~= ranges@);
    folds
}

/// Whether folds of a server take the place of those of a view: they do where folds are closed
/// on opening, and the folds there are came from a server or there are none. `existing` is how
/// many there are.
pub fn should_replace_folds_with_lsp(existing: Option<usize>, lsp_owned: bool, fold_on_open: bool) -> (r:
    bool)
    ensures
        r == replaces_folds(existing, lsp_owned, fold_on_open),
{
    fold_on_open && (lsp_owned || match existing {
        Some(count) => count == 0,
        None => true,
    })
}

pub open spec fn replaces_folds(existing: Option<usize>, lsp_owned: bool, fold_on_open: bool) -> bool {
    fold_on_open && (lsp_owned || existing is None || existing == Some(0usize))
}

/// The folds of a view of a document.
#[derive(Debug, Clone, Copy, PartialEq, Eq, Structural)]
pub struct ViewFolds {
    pub view: u64,
    pub doc: u64,
    /// How many folds there are, if any were ever made.
    pub existing: Option<usize>,
    /// Whether they came from a server.
    pub lsp_owned: bool,
}

/// The views of the document whose folds are replaced.
pub open spec fn replaced_views(views: Seq<ViewFolds>, doc: u64, fold_on_open: bool) -> Seq<u64>
    decreases views.len(),
{
    if views.len() == 0 {
        seq![]
    } else {
        let rest = replaced_views(views.drop_last(), doc, fold_on_open);
        let last = views.last();
        if last.doc == doc && replaces_folds(last.existing, last.lsp_owned, fold_on_open) {
            rest.push(last.view)
        } else {
            rest
        }
    }
}

/// The views that get the folds of an answer.
pub fn apply_folding_ranges(
    folding: bool,
    fold_on_open: bool,
    documents: &IdMap<u64, LspDocument>,
    doc_id: u64,
    expected_version: i32,
    request: u64,
    views: &Vec<ViewFolds>,
) -> (r: Vec<u64>)
    requires
        documents.wf(),
    ensures
        r@ == if folding && fold_on_open && requests::counts(
            documents@,
            doc_id,
            expected_version,
            Feature::FoldingRange,
            request,
        ) {
            replaced_views(views@, doc_id, true)
        } else {
            Seq::<u64>::empty()
        },
{
    let mut targets: Vec<u64> = Vec::new();
    if !accepts_answer(
        folding_ranges_are_needed(folding, fold_on_open),
        documents,
        doc_id,
        expected_version,
        Feature::FoldingRange,
        request,
    ) {
        assert(targets@ =~= Seq::<u64>::empty());
        return targets;
    }
    let mut i: usize = 0;
    assert(views@.take(0) =~= seq![]);
    while i < views.len()
        invariant
            i <= views@.len(),
            fold_on_open,
            targets@ == replaced_views(views@.take(i as int), doc_id, true),
        decreases views@.len() - i,
    {
        assert(views@.take(i + 1).drop_last() =~= views@.take(i as int));
        let view = views[i];
        if view.doc == doc_id && should_replace_folds_with_lsp(
            view.existing,
            view.lsp_owned,
            fold_on_open,
        ) {
            targets.push(view.view);
        }
        i += 1;
    }
    assert(views@.take(i as int) =~= views@);
    targets
}

/// Folds that somebody made are never replaced by those of a server.
pub proof fn law_own_folds_are_kept(views: Seq<ViewFolds>, doc: u64, fold_on_open: bool, view: u64)
    requires
        forall|i: int|
            0 <= i < views.len() && (#[trigger] views[i]).view == view ==> !views[i].lsp_owned
                && (views[i].existing matches Some(n) && n > 0),
    ensures
        !replaced_views(views, doc, fold_on_open).contains(view),
    decreases views.len(),
{
    if views.len() > 0 {
        let before = views.drop_last();
        assert forall|i: int| 0 <= i < before.len() && (#[trigger] before[i]).view
            == view implies !before[i].lsp_owned && (before[i].existing matches Some(n) && n
            > 0) by {
            assert(views[i] == before[i]);
        }
        law_own_folds_are_kept(before, doc, fold_on_open, view);
        assert(views[views.len() - 1] == views.last());
        let rest = replaced_views(before, doc, fold_on_open);
        let all = replaced_views(views, doc, fold_on_open);
        if all.contains(view) {
            let i = choose|i: int| 0 <= i < all.len() && all[i] == view;
            if i < rest.len() {
                assert(rest[i] == view);
            }
        }
    }
}

/// A line behind another ends behind its start, and not at the front of the text.
proof fn lemma_lines_in_order(t: Seq<char>, range: FoldingRange)
    requires
        foldable(t, range),
    ensures
        ({
            let starts = lines::line_starts(t);
            let end = lines::line_end(t, range.end_line as int);
            &&& starts[range.start_line as int] < starts[range.end_line as int]
            &&& starts[range.end_line as int] <= end <= t.len()
            &&& end > 0
            &&& range.end_line + 1 < starts.len() ==> end < starts[range.end_line + 1]
        }),
{
    lines::lemma_line_starts(t);
    let starts = lines::line_starts(t);
    let line = range.end_line as int;
    if line + 1 < starts.len() {
        assert(starts[line] < starts[line + 1]);
    }
}

/// A fold without characters covers all lines of its range: it begins on the first at what is not
/// white space, and its last character is the last of its last line, or the end of the line before
/// where that is empty.
pub proof fn law_folds_cover_their_lines(t: Seq<char>, range: FoldingRange)
    requires
        foldable(t, range),
        range.start_position is None,
        range.end_position is None,
    ensures
        ({
            let starts = lines::line_starts(t);
            let (first, last) = (range.start_line as int, range.end_line as int);
            let (from, to) = (fold_start(t, range), fold_end(t, range));
            &&& starts[first] <= from
            &&& first + 1 < starts.len() ==> from < starts[first + 1]
            &&& forall|i: int| starts[first] <= i < from ==> text::is_white(#[trigger] t[i])
            &&& starts[last] <= to + 1 <= t.len()
            &&& last + 1 < starts.len() ==> to + 1 < starts[last + 1]
            &&& forall|i: int|
                to < i < t.len() && (last + 1 < starts.len() ==> i < starts[last + 1]) ==> #[trigger]
                t[i] == '\n' || t[i] == '\r'
            &&& starts[last] <= to ==> !(t[to] == '\n' || (t[to] == '\r' && to + 1 < t.len() && t[to
                + 1] == '\n'))
            &&& from <= to + 1
        }),
{
    lemma_lines_in_order(t, range);
    lines::lemma_line_starts(t);
    let starts = lines::line_starts(t);
    let (first, last) = (range.start_line as int, range.end_line as int);
    lines::law_the_first_solid_character_is_found(
        t,
        starts[first] as int,
        lines::next_start(t, first) as int,
    );
    lines::law_lines_end_at_their_feed(t, last);
    assert(starts[first] < starts[first + 1]);
    assert(starts[first + 1] <= starts[last]);
    if last + 1 < starts.len() {
        assert(t[starts[last + 1] - 1] == '\n');
    }
}

/// Characters that the server gave count where they are in place: the fold begins at the one on
/// the first line and ends in front of the other.
pub proof fn law_given_characters_bound_a_fold(t: Seq<char>, range: FoldingRange, at: usize, to: usize)
    requires
        foldable(t, range),
        range.start_position == Some(at),
        range.end_position == Some(to),
        lines::line_starts(t)[range.start_line as int] <= at <= lines::line_end(
            t,
            range.start_line as int,
        ),
        to > 0,
    ensures
        fold_start(t, range) == at,
        fold_end(t, range) + 1 == to,
{
}

/// Ranges on one line and those that leave the text make no fold; every other makes one, and the
/// folds come in the order of their ranges.
pub proof fn law_ranges_over_lines_are_folded(t: Seq<char>, ranges: Seq<FoldingRange>, last: FoldingRange)
    ensures
        ({
            let over_lines = last.start_line < last.end_line && last.end_line
                < lines::line_starts(t).len();
            let before = folds_for(t, ranges);
            let after = folds_for(t, ranges.push(last));
            &&& after.len() == before.len() + (if over_lines {
                1int
            } else {
                0int
            })
            &&& after.take(before.len() as int) == before
            &&& over_lines ==> after.last() == (
                fold_object(last.kind),
                fold_start(t, last),
                fold_end(t, last),
            )
        }),
{
    assert(ranges.push(last).drop_last() =~= ranges);
    let before = folds_for(t, ranges);
    assert(folds_for(t, ranges.push(last)).take(before.len() as int) =~= before);
}

/// Folds of a server replace what a server made or what is empty, in every view of the document
/// and in no other, if folds are closed on opening.
pub proof fn law_views_without_own_folds_get_those_of_the_server(
    views: Seq<ViewFolds>,
    doc: u64,
    i: int,
)
    requires
        0 <= i < views.len(),
        views[i].doc == doc,
        views[i].lsp_owned || views[i].existing is None || views[i].existing == Some(0usize),
    ensures
        replaced_views(views, doc, true).contains(views[i].view),
    decreases views.len(),
{
    let before = views.drop_last();
    let rest = replaced_views(before, doc, true);
    let all = replaced_views(views, doc, true);
    if i < before.len() {
        law_views_without_own_folds_get_those_of_the_server(before, doc, i);
        let at = rest.index_of(views[i].view);
        assert(all[at] == views[i].view);
    } else {
        assert(all[rest.len() as int] == views[i].view);
    }
}

/// Only views of the document get its folds, and none where folds are not closed on opening.
pub proof fn law_other_documents_keep_their_folds(
    views: Seq<ViewFolds>,
    doc: u64,
    fold_on_open: bool,
    view: u64,
)
    requires
        replaced_views(views, doc, fold_on_open).contains(view),
    ensures
        fold_on_open,
        exists|i: int|
            0 <= i < views.len() && (#[trigger] views[i]).view == view && views[i].doc == doc,
    decreases views.len(),
{
    if views.len() > 0 {
        let before = views.drop_last();
        let rest = replaced_views(before, doc, fold_on_open);
        let all = replaced_views(views, doc, fold_on_open);
        let at = all.index_of(view);
        if at < rest.len() {
            assert(rest[at] == view);
            law_other_documents_keep_their_folds(before, doc, fold_on_open, view);
            let i = choose|i: int|
                0 <= i < before.len() && (#[trigger] before[i]).view == view && before[i].doc == doc;
            assert(views[i] == before[i]);
        } else {
            assert(views[views.len() - 1].view == view);
        }
    }
}

/// Folds that somebody made stay; those of a server are replaced, and where there are none they
/// are made, if folds are closed on opening.
pub proof fn law_own_folds_stay(existing: usize, lsp_owned: bool, fold_on_open: bool)
    ensures
        existing > 0 ==> !replaces_folds(Some(existing), false, fold_on_open),
        !replaces_folds(Some(existing), lsp_owned, false),
        replaces_folds(Some(existing), true, true),
        replaces_folds(None, lsp_owned, true),
        replaces_folds(Some(0), lsp_owned, true),
{
}

/// What is folded is of the kind that the server named, and told apart from others by its name.
pub proof fn law_folds_are_of_the_named_kind(kind: FoldingRangeKind, a: FoldObject, b: FoldObject)
    ensures
        fold_object(None) == FoldObject::Lsp,
        fold_object(Some(kind)) != FoldObject::Lsp,
        kind == FoldingRangeKind::Comment <==> fold_object(Some(kind)) == FoldObject::Comment,
        kind == FoldingRangeKind::Imports <==> fold_object(Some(kind)) == FoldObject::Imports,
        kind == FoldingRangeKind::Region <==> fold_object(Some(kind)) == FoldObject::Region,
        a != b ==> a.spec_name() != b.spec_name(),
{
    reveal_strlit("comment");
    reveal_strlit("imports");
    reveal_strlit("region");
    reveal_strlit("lsp");
    assert("comment"@[0] == 'c');
    assert("imports"@[0] == 'i');
    assert("region"@[0] == 'r');
    assert("lsp"@[0] == 'l');
}

} // verus!
