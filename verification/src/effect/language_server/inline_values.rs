//! Values of variables and proposed completions that are shown inside the text.

use vstd::prelude::*;

use crate::effect::dap::StackFrame;
use crate::effect::language_server::annotations;
use crate::lines;
use crate::lines::Text;
use crate::text::{chars_of, join, text_of};

verus! {

/// How many values are shown in a document.
pub const INLINE_VALUE_LIMIT: usize = 128;

/// How many expressions are evaluated for that.
pub const INLINE_VALUE_EVALUATE_LIMIT: usize = 16;

/// What a server wants shown.
#[derive(Debug)]
pub enum InlineValueKind {
    Text(String),
    /// The value of a variable; where it is not named, its name is in the text.
    VariableLookup { variable_name: Option<String>, case_sensitive: bool },
    /// The value of an expression, which may be in the text too.
    EvaluatableExpression(Option<String>),
}

#[derive(Debug)]
pub struct InlineValue {
    /// From where to where it belongs, if that is in the text.
    pub range: Option<(usize, usize)>,
    pub kind: InlineValueKind,
}

impl InlineValue {
    pub open spec fn fits(self, t: Seq<char>) -> bool {
        self.range matches Some((from, to)) ==> from <= to <= t.len()
    }
}

/// What is shown once it is known.
#[derive(Debug)]
pub enum PendingInlineValueLabel {
    Text(String),
    Variable { name: String, case_sensitive: bool },
    Expression(String),
}

#[derive(Debug)]
pub struct PendingInlineValueAnnotation {
    pub char_idx: usize,
    pub label: PendingInlineValueLabel,
}

/// What a [`PendingInlineValueLabel`] says.
pub enum LabelView {
    Text(Seq<char>),
    Variable(Seq<char>, bool),
    Expression(Seq<char>),
}

impl PendingInlineValueLabel {
    pub open spec fn says(self) -> LabelView {
        match self {
            PendingInlineValueLabel::Text(text) => LabelView::Text(text@),
            PendingInlineValueLabel::Variable { name, case_sensitive } => LabelView::Variable(
                name@,
                case_sensitive,
            ),
            PendingInlineValueLabel::Expression(expression) => LabelView::Expression(expression@),
        }
    }
}

/// What was named, or else what stands in the range.
pub open spec fn named_or_marked(t: Seq<char>, range: Option<(usize, usize)>, name: Option<String>) -> Seq<
    char,
> {
    match name {
        Some(name) => name@,
        None => match range {
            Some((from, to)) => t.subrange(from as int, to as int),
            None => seq![],
        },
    }
}

pub open spec fn label_of(t: Seq<char>, value: InlineValue) -> LabelView {
    match value.kind {
        InlineValueKind::Text(text) => LabelView::Text(text@),
        InlineValueKind::VariableLookup { variable_name, case_sensitive } => LabelView::Variable(
            named_or_marked(t, value.range, variable_name),
            case_sensitive,
        ),
        InlineValueKind::EvaluatableExpression(expression) => LabelView::Expression(
            named_or_marked(t, value.range, expression),
        ),
    }
}

/// The values that have a place, each at the end of the line that it ends on.
pub open spec fn pending_values(t: Seq<char>, values: Seq<InlineValue>) -> Seq<(int, LabelView)>
    decreases values.len(),
{
    if values.len() == 0 {
        seq![]
    } else {
        let rest = pending_values(t, values.drop_last());
        match values.last().range {
            Some((_, to)) => rest.push(
                (
                    lines::line_end(t, lines::line_of(t, to as nat)) as int,
                    label_of(t, values.last()),
                ),
            ),
            None => rest,
        }
    }
}

fn name_or_mark(text: &Text, range: Option<(usize, usize)>, name: &Option<String>) -> (r: String)
    requires
        range matches Some((from, to)) ==> from <= to <= text@.len(),
    ensures
        r@ == named_or_marked(text@, range, *name),
{
    match name {
        Some(name) => name.clone(),
        None => match range {
            Some((from, to)) => text.slice(from, to),
            None => String::new(),
        },
    }
}

pub open spec fn pending_view(pending: Seq<PendingInlineValueAnnotation>) -> Seq<(int, LabelView)> {
    pending.map_values(|p: PendingInlineValueAnnotation| (p.char_idx as int, p.label.says()))
}

/// What is to be shown of the first values.
pub fn pending_inline_value_annotations(text: &Text, values: &Vec<InlineValue>) -> (r: Vec<
    PendingInlineValueAnnotation,
>)
    requires
        forall|i: int| 0 <= i < values@.len() ==> (#[trigger] values@[i]).fits(text@),
    ensures
        pending_view(r@) == pending_values(
            text@,
            values@.take(
                if values@.len() < INLINE_VALUE_LIMIT {
                    values@.len() as int
                } else {
                    INLINE_VALUE_LIMIT as int
                },
            ),
        ),
{
    let count: usize = if values.len() < INLINE_VALUE_LIMIT {
        values.len()
    } else {
        INLINE_VALUE_LIMIT
    };
    let mut pending: Vec<PendingInlineValueAnnotation> = Vec::new();
    let mut i: usize = 0;
    assert(values@.take(0) =~= seq![]);
    assert(pending_view(pending@) =~= seq![]);
    while i < count
        invariant
            i <= count <= values@.len(),
            forall|j: int| 0 <= j < values@.len() ==> (#[trigger] values@[j]).fits(text@),
            pending_view(pending@) == pending_values(text@, values@.take(i as int)),
        decreases count - i,
    {
        assert(values@.take(i + 1).drop_last() =~= values@.take(i as int));
        let ghost before = pending@;
        let value = &values[i];
        assert(value.fits(text@));
        let label = match &value.kind {
            InlineValueKind::Text(text) => PendingInlineValueLabel::Text(text.clone()),
            InlineValueKind::VariableLookup { variable_name, case_sensitive } => {
                PendingInlineValueLabel::Variable {
                    name: name_or_mark(text, value.range, variable_name),
                    case_sensitive: *case_sensitive,
                }
            },
            InlineValueKind::EvaluatableExpression(expression) => {
                PendingInlineValueLabel::Expression(name_or_mark(text, value.range, expression))
            },
        };
        if let Some((_, to)) = value.range {
            let line = text.char_to_line(to);
            let char_idx = text.line_end_char_index(line);
            pending.push(PendingInlineValueAnnotation { char_idx, label });
            assert(pending_view(pending@) =~= pending_view(before).push(
                (char_idx as int, label_of(text@, *value)),
            ));
        }
        i += 1;
    }
    pending
}

/// Whether the variables of the frame have to be known.
pub fn needs_variables(pending: &Vec<PendingInlineValueAnnotation>) -> (r: bool)
    ensures
        r == exists|i: int| 0 <= i < pending@.len() && (#[trigger] pending@[i]).label is Variable,
{
    let mut i: usize = 0;
    while i < pending.len()
        invariant
            i <= pending@.len(),
            forall|j: int| 0 <= j < i ==> !((#[trigger] pending@[j]).label is Variable),
        decreases pending@.len() - i,
    {
        if let PendingInlineValueLabel::Variable { .. } = &pending[i].label {
            assert(pending@[i as int].label is Variable);
            return true;
        }
        i += 1;
    }
    false
}

/// What is shown at once, and what has to be evaluated first.
#[derive(Debug)]
pub struct InlineValuePlan {
    pub annotations: Vec<(usize, String)>,
    /// Where each value goes, and the expression it is of.
    pub evaluations: Vec<(usize, String)>,
}

/// Texts are shown as they are, variables with the values found for them, and of the
/// expressions the first ones are evaluated.
pub open spec fn planned(
    pending: Seq<PendingInlineValueAnnotation>,
    values: Seq<Option<String>>,
) -> (Seq<(int, Seq<char>)>, Seq<(int, Seq<char>)>)
    decreases pending.len(),
{
    if pending.len() == 0 {
        (seq![], seq![])
    } else {
        let (shown, evaluated) = planned(pending.drop_last(), values);
        let last = pending.last();
        let at = last.char_idx as int;
        match last.label {
            PendingInlineValueLabel::Text(text) => if text@.len() > 0 {
                (shown.push((at, text@)), evaluated)
            } else {
                (shown, evaluated)
            },
            PendingInlineValueLabel::Variable { .. } => match values[pending.len() - 1] {
                Some(value) => (shown.push((at, " = "@ + value@)), evaluated),
                None => (shown, evaluated),
            },
            PendingInlineValueLabel::Expression(expression) => if expression@.len() > 0
                && evaluated.len() < INLINE_VALUE_EVALUATE_LIMIT {
                (shown, evaluated.push((at, expression@)))
            } else {
                (shown, evaluated)
            },
        }
    }
}

fn is_empty_text(text: &str) -> (r: bool)
    ensures
        r == (text@.len() == 0),
{
    let chars = chars_of(text);
    chars.len() == 0
}

/// Sorts out what is shown. `values` holds what was found for each variable.
pub fn plan_inline_values(
    pending: &Vec<PendingInlineValueAnnotation>,
    values: &Vec<Option<String>>,
) -> (r: InlineValuePlan)
    requires
        values@.len() == pending@.len(),
    ensures
        annotations::labels_view(r.annotations@) == planned(pending@, values@).0,
        annotations::labels_view(r.evaluations@) == planned(pending@, values@).1,
{
    let mut shown: Vec<(usize, String)> = Vec::new();
    let mut evaluated: Vec<(usize, String)> = Vec::new();
    let mut i: usize = 0;
    assert(pending@.take(0) =~= seq![]);
    assert(annotations::labels_view(shown@) =~= seq![]);
    assert(annotations::labels_view(evaluated@) =~= seq![]);
    while i < pending.len()
        invariant
            i <= pending@.len(),
            values@.len() == pending@.len(),
            annotations::labels_view(shown@) == planned(pending@.take(i as int), values@).0,
            annotations::labels_view(evaluated@) == planned(pending@.take(i as int), values@).1,
        decreases pending@.len() - i,
    {
        assert(pending@.take(i + 1).drop_last() =~= pending@.take(i as int));
        let ghost shown_before = shown@;
        let ghost evaluated_before = evaluated@;
        assert(annotations::labels_view(evaluated@).len() == evaluated@.len());
        let at = pending[i].char_idx;
        match &pending[i].label {
            PendingInlineValueLabel::Text(text) => {
                if !is_empty_text(text.as_str()) {
                    shown.push((at, text.clone()));
                    assert(annotations::labels_view(shown@) =~= annotations::labels_view(
                        shown_before,
                    ).push((at as int, text@)));
                }
            },
            PendingInlineValueLabel::Variable { .. } => {
                if let Some(value) = &values[i] {
                    shown.push((at, join(" = ", value.as_str())));
                    assert(annotations::labels_view(shown@) =~= annotations::labels_view(
                        shown_before,
                    ).push((at as int, " = "@ + value@)));
                }
            },
            PendingInlineValueLabel::Expression(expression) => {
                if !is_empty_text(expression.as_str()) && evaluated.len()
                    < INLINE_VALUE_EVALUATE_LIMIT {
                    evaluated.push((at, expression.clone()));
                    assert(annotations::labels_view(evaluated@) =~= annotations::labels_view(
                        evaluated_before,
                    ).push((at as int, expression@)));
                }
            },
        }
        i += 1;
    }
    assert(pending@.take(i as int) =~= pending@);
    InlineValuePlan { annotations: shown, evaluations: evaluated }
}

/// No more expressions are evaluated for a document than the limit allows.
pub proof fn law_evaluations_are_bounded(
    pending: Seq<PendingInlineValueAnnotation>,
    values: Seq<Option<String>>,
)
    ensures
        planned(pending, values).1.len() <= INLINE_VALUE_EVALUATE_LIMIT,
    decreases pending.len(),
{
    if pending.len() > 0 {
        law_evaluations_are_bounded(pending.drop_last(), values);
    }
}

/// What is shown for an expression, once it was evaluated; nothing if that gave nothing.
pub fn evaluated_annotation(char_idx: usize, result: Option<String>) -> (r: Option<(usize, String)>)
    ensures
        match r {
            Some((at, text)) => at == char_idx && result is Some && result->0@.len() > 0 && text@
                == " = "@ + result->0@,
            None => result is None || result->0@.len() == 0,
        },
{
    match result {
        Some(value) => if is_empty_text(value.as_str()) {
            None
        } else {
            Some((char_idx, join(" = ", value.as_str())))
        },
        None => None,
    }
}

/// What is shown in the end: what was known before, and then what the expressions gave that were
/// evaluated, in the order in which they were.
pub open spec fn with_evaluated(
    known: Seq<(int, Seq<char>)>,
    evaluated: Seq<(usize, Option<String>)>,
) -> Seq<(int, Seq<char>)>
    decreases evaluated.len(),
{
    if evaluated.len() == 0 {
        known
    } else {
        let before = with_evaluated(known, evaluated.drop_last());
        let (char_idx, result) = evaluated.last();
        match result {
            Some(text) if text@.len() > 0 => before.push((char_idx as int, " = "@ + text@)),
            _ => before,
        }
    }
}

/// What is shown in the end.
pub fn inline_value_annotations(
    known: Vec<(usize, String)>,
    evaluated: Vec<(usize, Option<String>)>,
) -> (r: Vec<(usize, String)>)
    ensures
        annotations::labels_view(r@) == with_evaluated(
            annotations::labels_view(known@),
            evaluated@,
        ),
{
    let ghost all = evaluated@;
    let ghost before = annotations::labels_view(known@);
    let mut shown = known;
    assert(all.take(0) =~= seq![]);
    for item in it: evaluated
        invariant
            it.seq() == all,
            annotations::labels_view(shown@) == with_evaluated(before, all.take(it.index())),
    {
        let ghost so_far = shown@;
        assert(all.take(it.index() + 1).drop_last() =~= all.take(it.index()));
        assert(all.take(it.index() + 1).last() == item);
        if let Some((at, text)) = evaluated_annotation(item.0, item.1) {
            shown.push((at, text));
            assert(annotations::labels_view(shown@) =~= annotations::labels_view(so_far).push(
                (at as int, text@),
            ));
        }
    }
    assert(all.take(all.len() as int) =~= all);
    shown
}

/// The variables of all scopes of a frame, one scope after the other.
pub open spec fn all_variables<V>(scopes: Seq<Option<Vec<V>>>) -> Option<Seq<V>>
    decreases scopes.len(),
{
    if scopes.len() == 0 {
        Some(seq![])
    } else {
        match (all_variables(scopes.drop_last()), scopes.last()) {
            (Some(before), Some(variables)) => Some(before + variables@),
            _ => None,
        }
    }
}

/// The variables of a frame, from what was answered about each of its scopes; none if one of the
/// questions failed.
pub fn fetch_inline_value_variables<V>(scopes: Vec<Option<Vec<V>>>) -> (r: Option<Vec<V>>)
    ensures
        match r {
            Some(variables) => all_variables(scopes@) == Some(variables@),
            None => all_variables(scopes@) is None,
        },
{
    let ghost all = scopes@;
    let mut variables: Vec<V> = Vec::new();
    let mut failed = false;
    assert(all.take(0) =~= seq![]);
    assert(variables@ =~= seq![]);
    for scope in it: scopes
        invariant
            it.seq() == all,
            failed <==> all_variables(all.take(it.index())) is None,
            !failed ==> all_variables(all.take(it.index())) == Some(variables@),
    {
        assert(all.take(it.index() + 1).drop_last() =~= all.take(it.index()));
        assert(all.take(it.index() + 1).last() == scope);
        match scope {
            Some(more) => {
                let mut more = more;
                variables.append(&mut more);
            },
            None => {
                failed = true;
            },
        }
    }
    assert(all.take(all.len() as int) =~= all);
    if failed {
        None
    } else {
        Some(variables)
    }
}

/// The places at which a frame starts and ends, as a line and a column that are counted from one.
#[derive(Debug, Clone, Copy, PartialEq, Eq)]
pub struct FrameRange {
    pub start: (usize, usize),
    pub end: Option<(usize, usize)>,
}

/// Where a frame starts and ends. One that names no line for its end has none; one that names no
/// column for it ends in the column in which it starts.
pub open spec fn range_of_frame(frame: StackFrame) -> FrameRange {
    FrameRange {
        start: (frame.line, frame.column),
        end: match frame.end_line {
            Some(line) => Some(
                (
                    line,
                    match frame.end_column {
                        Some(column) => column,
                        None => frame.column,
                    },
                ),
            ),
            None => None,
        },
    }
}

/// The places whose positions in the text have to be known for [`inline_value_context`].
pub fn frame_range(frame: &StackFrame) -> (r: FrameRange)
    ensures
        r == range_of_frame(*frame),
{
    FrameRange {
        start: (frame.line, frame.column),
        end: match frame.end_line {
            Some(line) => match frame.end_column {
                Some(column) => Some((line, column)),
                None => Some((line, frame.column)),
            },
            None => None,
        },
    }
}

/// For what values are asked: the frame in which the debugger has stopped, and from where to
/// where it is in the text.
#[derive(Debug, Clone, Copy, PartialEq, Eq)]
pub struct InlineValueContext {
    pub frame_id: i32,
    pub stopped_location: (usize, usize),
}

/// Where the line of a frame starts, which is counted from one; lines behind the last start at
/// the end of the text.
pub open spec fn start_of_frame_line(t: Seq<char>, line: usize) -> int {
    let starts = lines::line_starts(t);
    let line = if line > 0 {
        line - 1
    } else {
        0
    };
    if line < starts.len() {
        starts[line] as int
    } else {
        t.len() as int
    }
}

/// For what values are asked in a frame. `start` and `end` are the positions of its
/// [`frame_range`], as far as they are in the text. Without a start the start of its line counts,
/// without an end its start.
pub fn inline_value_context(
    text: &Text,
    frame: &StackFrame,
    start: Option<usize>,
    end: Option<usize>,
) -> (r: InlineValueContext)
    ensures
        r.frame_id == frame.id as i32,
        r.stopped_location.0 == match start {
            Some(at) => at as int,
            None => start_of_frame_line(text@, frame.line),
        },
        r.stopped_location.1 == match end {
            Some(at) if range_of_frame(*frame).end is Some => at,
            _ => r.stopped_location.0,
        },
{
    let from: usize = match start {
        Some(at) => at,
        None => {
            let line: usize = frame.line.saturating_sub(1);
            let count: usize = text.len_lines();
            text.line_to_char(
                if line < count {
                    line
                } else {
                    count
                },
            )
        },
    };
    let to: usize = match end {
        Some(at) => if frame.end_line.is_some() {
            at
        } else {
            from
        },
        None => from,
    };
    InlineValueContext {
        frame_id: #[verifier::truncate]
        (frame.id as i32),
        stopped_location: (from, to),
    }
}

/// Where the first line feed is.
pub open spec fn first_feed(t: Seq<char>, from: int) -> int
    decreases t.len() - from,
{
    if from >= t.len() || t[from] == '\n' {
        from
    } else {
        first_feed(t, from + 1)
    }
}

/// The first line of a text, without what ends it.
pub open spec fn first_line(t: Seq<char>) -> Seq<char> {
    let feed = first_feed(t, 0);
    if 0 < feed < t.len() && t[feed - 1] == '\r' {
        t.take(feed - 1)
    } else {
        t.take(feed)
    }
}

/// The line of a proposed completion that is shown at the cursor; none if it is empty.
pub fn ghost_line(insert_text: &str) -> (r: Option<String>)
    ensures
        match r {
            Some(line) => line@ == first_line(insert_text@) && line@.len() > 0,
            None => first_line(insert_text@).len() == 0,
        },
{
    let chars = chars_of(insert_text);
    let mut feed: usize = 0;
    while feed < chars.len() && chars[feed] != '\n'
        invariant
            feed <= chars@.len(),
            first_feed(chars@, 0) == first_feed(chars@, feed as int),
        decreases chars@.len() - feed,
    {
        feed += 1;
    }
    let end: usize = if 0 < feed && feed < chars.len() && chars[feed - 1] == '\r' {
        feed - 1
    } else {
        feed
    };
    if end == 0 {
        return None;
    }
    let mut line: Vec<char> = Vec::new();
    let mut i: usize = 0;
    while i < end
        invariant
            i <= end <= chars@.len(),
            line@ == chars@.take(i as int),
        decreases end - i,
    {
        line.push(chars[i]);
        i += 1;
        assert(chars@.take(i as int) =~= chars@.take(i - 1).push(chars@[i - 1]));
    }
    Some(text_of(line.as_slice()))
}

/// A completion that is shown at the cursor.
#[derive(Debug, Clone, Copy)]
pub struct InlineCompletion {
    pub view_id: u64,
    pub version: i32,
    pub cursor: usize,
    /// What it takes the place of, if it does.
    pub replace_range: Option<(usize, usize)>,
}

/// A completion that a server proposes.
#[derive(Debug)]
pub struct InlineItem {
    pub insert_text: String,
    /// The characters that it takes the place of, if it names any that the text has.
    pub range: Option<(usize, usize)>,
}

/// A completion that is shown, with its text and the line of it that can be seen.
#[derive(Debug)]
pub struct InlineGhost {
    pub completion: InlineCompletion,
    pub text: String,
    pub line: String,
}

/// What is shown of the completions that a server proposes for a cursor: the first, unless its
/// first line is empty.
pub fn inline_completion_ghost(
    items: Vec<InlineItem>,
    view_id: u64,
    version: i32,
    cursor: usize,
) -> (r: Option<InlineGhost>)
    ensures
        match r {
            Some(shown) => {
                &&& items@.len() > 0
                &&& shown.completion == (InlineCompletion {
                    view_id,
                    version,
                    cursor,
                    replace_range: items@[0].range,
                })
                &&& shown.text == items@[0].insert_text
                &&& shown.line@ == first_line(items@[0].insert_text@)
                &&& shown.line@.len() > 0
            },
            None => items@.len() > 0 ==> first_line(items@[0].insert_text@).len() == 0,
        },
{
    let mut items = items;
    if items.len() == 0 {
        return None;
    }
    let item = items.remove(0);
    match ghost_line(item.insert_text.as_str()) {
        Some(line) => Some(
            InlineGhost {
                completion: InlineCompletion {
                    view_id,
                    version,
                    cursor,
                    replace_range: item.range,
                },
                text: item.insert_text,
                line,
            },
        ),
        None => None,
    }
}

/// What accepting a completion does.
#[derive(Debug, Clone, Copy, PartialEq, Eq, Structural)]
pub enum AcceptCompletion {
    /// There is none.
    Nothing,
    /// It belongs to another view or an older version, and goes away.
    Discard,
    /// It takes the place of the characters in between, and goes away.
    Insert { from: usize, to: usize },
}

pub fn accept_inline_completion(
    completion: Option<InlineCompletion>,
    focused_view: u64,
    version: i32,
) -> (r: AcceptCompletion)
    ensures
        r == match completion {
            None => AcceptCompletion::Nothing,
            Some(shown) => if shown.view_id != focused_view || shown.version != version {
                AcceptCompletion::Discard
            } else {
                match shown.replace_range {
                    Some((from, to)) => AcceptCompletion::Insert { from, to },
                    None => AcceptCompletion::Insert { from: shown.cursor, to: shown.cursor },
                }
            },
        },
{
    match completion {
        None => AcceptCompletion::Nothing,
        Some(shown) => {
            if shown.view_id != focused_view || shown.version != version {
                return AcceptCompletion::Discard;
            }
            match shown.replace_range {
                Some((from, to)) => AcceptCompletion::Insert { from, to },
                None => AcceptCompletion::Insert { from: shown.cursor, to: shown.cursor },
            }
        },
    }
}

/// A value is shown at the end of the line that it ends on; one that is nowhere in the text is
/// not shown.
pub proof fn law_values_show_at_the_end_of_their_line(
    t: Seq<char>,
    values: Seq<InlineValue>,
    value: InlineValue,
)
    ensures
        pending_values(t, Seq::<InlineValue>::empty()).len() == 0,
        ({
            let before = pending_values(t, values);
            let after = pending_values(t, values.push(value));
            &&& value.range is None ==> after == before
            &&& value.range matches Some((from, to)) ==> {
                &&& after.len() == before.len() + 1
                &&& after.drop_last() == before
                &&& after.last().0 == lines::line_end(t, lines::line_of(t, to as nat))
                &&& value.kind matches InlineValueKind::Text(text) ==> after.last().1
                    == LabelView::Text(text@)
                &&& value.kind matches InlineValueKind::VariableLookup {
                    variable_name: Some(name),
                    case_sensitive,
                } ==> after.last().1 == LabelView::Variable(name@, case_sensitive)
                &&& value.kind matches InlineValueKind::VariableLookup {
                    variable_name: None,
                    case_sensitive,
                } ==> after.last().1 == LabelView::Variable(
                    t.subrange(from as int, to as int),
                    case_sensitive,
                )
                &&& value.kind matches InlineValueKind::EvaluatableExpression(Some(expression))
                    ==> after.last().1 == LabelView::Expression(expression@)
                &&& value.kind is EvaluatableExpression && value.kind->EvaluatableExpression_0 is None
                    ==> after.last().1 == LabelView::Expression(
                    t.subrange(from as int, to as int),
                )
            }
        }),
{
    assert(values.push(value).drop_last() =~= values);
    let before = pending_values(t, values);
    let after = pending_values(t, values.push(value));
    assert(value.range is Some ==> after.drop_last() =~= before);
}

/// A text shows as it is and the value of a variable behind a sign, if they are known; expressions
/// are evaluated, as many as may be.
pub proof fn law_labels_show_or_are_evaluated(
    pending: Seq<PendingInlineValueAnnotation>,
    values: Seq<Option<String>>,
    label: PendingInlineValueAnnotation,
)
    requires
        values.len() == pending.len() + 1,
    ensures
        ({
            let (shown, evaluated) = planned(pending, values);
            let after = planned(pending.push(label), values);
            let at = label.char_idx as int;
            &&& label.label matches PendingInlineValueLabel::Text(text) ==> after.1 == evaluated
                && after.0 == (if text@.len() > 0 {
                shown.push((at, text@))
            } else {
                shown
            })
            &&& label.label is Variable && values[pending.len() as int] is Some ==> after == (
                shown.push((at, " = "@ + values[pending.len() as int]->0@)),
                evaluated,
            )
            &&& label.label is Variable && values[pending.len() as int] is None ==> after == (
                shown,
                evaluated,
            )
            &&& label.label matches PendingInlineValueLabel::Expression(expression) ==> after.0
                == shown && after.1 == (if expression@.len() > 0 && evaluated.len() < 16 {
                evaluated.push((at, expression@))
            } else {
                evaluated
            })
        }),
{
    assert(pending.push(label).drop_last() =~= pending);
}

/// What evaluating gave is shown behind what is known, if it says anything.
pub proof fn law_evaluations_show_behind_the_rest(
    known: Seq<(int, Seq<char>)>,
    evaluated: Seq<(usize, Option<String>)>,
    at: usize,
    result: Option<String>,
)
    ensures
        with_evaluated(known, Seq::<(usize, Option<String>)>::empty()) == known,
        result is None ==> with_evaluated(known, evaluated.push((at, result))) == with_evaluated(
            known,
            evaluated,
        ),
        result matches Some(text) ==> with_evaluated(known, evaluated.push((at, result))) == (
        if text@.len() > 0 {
            with_evaluated(known, evaluated).push((at as int, " = "@ + text@))
        } else {
            with_evaluated(known, evaluated)
        }),
{
    assert(evaluated.push((at, result)).drop_last() =~= evaluated);
}

/// The variables of all scopes count, in order, if all of them could be had.
pub proof fn law_all_scopes_must_be_had<V>(scopes: Seq<Option<Vec<V>>>, more: Vec<V>)
    ensures
        all_variables(Seq::<Option<Vec<V>>>::empty()) == Some(Seq::<V>::empty()),
        all_variables(scopes.push(None)) is None,
        all_variables(scopes) is None ==> all_variables(scopes.push(Some(more))) is None,
        all_variables(scopes) matches Some(before) ==> all_variables(scopes.push(Some(more)))
            == Some(before + more@),
{
    assert(scopes.push(None).drop_last() =~= scopes);
    assert(scopes.push(Some(more)).drop_last() =~= scopes);
}

/// The first line of a text is what stands in front of its first line feed, without a carriage
/// return before that.
pub proof fn law_the_first_line_ends_at_the_first_feed(t: Seq<char>)
    ensures
        ({
            let line = first_line(t);
            let n = line.len() as int;
            &&& n <= t.len()
            &&& line == t.take(n)
            &&& forall|i: int| 0 <= i < n ==> #[trigger] line[i] != '\n'
            &&& n == t.len() || t[n] == '\n' || (t[n] == '\r' && n + 1 < t.len() && t[n + 1]
                == '\n')
            &&& n > 0 && n < t.len() && t[n] == '\n' ==> t[n - 1] != '\r'
        }),
{
    lemma_first_feed(t, 0);
    let feed = first_feed(t, 0);
    let line = first_line(t);
    assert forall|i: int| 0 <= i < line.len() implies #[trigger] line[i] != '\n' by {
        assert(line[i] == t[i]);
    }
}

proof fn lemma_first_feed(t: Seq<char>, from: int)
    requires
        0 <= from <= t.len(),
    ensures
        from <= first_feed(t, from) <= t.len(),
        first_feed(t, from) < t.len() ==> t[first_feed(t, from)] == '\n',
        forall|i: int| from <= i < first_feed(t, from) ==> #[trigger] t[i] != '\n',
    decreases t.len() - from,
{
    if from < t.len() && t[from] != '\n' {
        lemma_first_feed(t, from + 1);
    }
}

/// Adapters count lines from one: the place of a call is where its line begins, or the end of the
/// text if there is no such line.
pub proof fn law_lines_of_calls_count_from_one(t: Seq<char>, line: usize)
    ensures
        1 <= line <= lines::line_starts(t).len() ==> start_of_frame_line(t, line)
            == lines::line_starts(t)[line - 1],
        line > lines::line_starts(t).len() ==> start_of_frame_line(t, line) == t.len(),
        start_of_frame_line(t, 0) == 0,
{
    lines::lemma_line_starts(t);
}

/// The range of a call begins where it stands and ends on its last line, if that is known: at its
/// last column, or else at the one where it begins.
pub proof fn law_calls_span_their_lines(frame: StackFrame)
    ensures
        range_of_frame(frame).start == (frame.line, frame.column),
        frame.end_line is None ==> range_of_frame(frame).end is None,
        frame.end_line is Some && frame.end_column is Some ==> range_of_frame(frame).end == Some(
            (frame.end_line->0, frame.end_column->0),
        ),
        frame.end_line is Some && frame.end_column is None ==> range_of_frame(frame).end == Some(
            (frame.end_line->0, frame.column),
        ),
{
}

} // verus!
