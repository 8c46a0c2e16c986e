//! A text and its lines.

use vstd::prelude::*;

use crate::text;
use crate::text::{chars_of, is_whitespace};

verus! {

/// Where the lines of a text begin. A line feed ends a line; the last line may be empty.
pub open spec fn line_starts(t: Seq<char>) -> Seq<nat>
    decreases t.len(),
{
    if t.len() == 0 {
        seq![0nat]
    } else if t.last() == '\n' {
        line_starts(t.drop_last()).push(t.len())
    } else {
        line_starts(t.drop_last())
    }
}

/// Where a line ends, in front of its line feed and of a carriage return before that.
pub open spec fn line_end(t: Seq<char>, line: int) -> nat {
    let starts = line_starts(t);
    if line + 1 >= starts.len() {
        t.len()
    } else {
        let feed = starts[line + 1] - 1;
        if feed > starts[line] && t[feed - 1] == '\r' {
            (feed - 1) as nat
        } else {
            feed as nat
        }
    }
}

/// The line that begins last at or before the position.
pub open spec fn is_line_of(t: Seq<char>, at: nat, line: int) -> bool {
    let starts = line_starts(t);
    &&& 0 <= line < starts.len()
    &&& starts[line] <= at
    &&& line + 1 < starts.len() ==> at < starts[line + 1]
}

/// The line of a position.
pub open spec fn line_of(t: Seq<char>, at: nat) -> int {
    choose|line: int| is_line_of(t, at, line)
}

/// How far into `t[from..to]` its first character that is not white space is.
pub open spec fn first_solid(t: Seq<char>, from: int, to: int) -> Option<nat>
    decreases to - from,
{
    if from >= to {
        None
    } else if !text::is_white(t[from]) {
        Some(0nat)
    } else {
        match first_solid(t, from + 1, to) {
            Some(n) => Some((n + 1) as nat),
            None => None,
        }
    }
}

/// Where the line behind `line` begins, or the text ends.
pub open spec fn next_start(t: Seq<char>, line: int) -> nat {
    let starts = line_starts(t);
    if line + 1 < starts.len() {
        starts[line + 1]
    } else {
        t.len()
    }
}

/// The lines begin at growing positions, the first at the front, the others behind a line feed.
pub proof fn lemma_line_starts(t: Seq<char>)
    ensures
        line_starts(t).len() >= 1,
        line_starts(t).len() <= t.len() + 1,
        line_starts(t)[0] == 0,
        forall|i: int| 0 <= i < line_starts(t).len() ==> #[trigger] line_starts(t)[i] <= t.len(),
        forall|i: int, j: int|
            0 <= i < j < line_starts(t).len() ==> #[trigger] line_starts(t)[i]
                < #[trigger] line_starts(t)[j],
        forall|i: int|
            0 < i < line_starts(t).len() ==> t[#[trigger] line_starts(t)[i] - 1] == '\n',
    decreases t.len(),
{
    if t.len() > 0 {
        lemma_line_starts(t.drop_last());
    }
}

/// Each position of a text is on exactly one line.
pub proof fn law_positions_have_one_line(t: Seq<char>, at: nat, a: int, b: int)
    requires
        is_line_of(t, at, a),
        is_line_of(t, at, b),
    ensures
        a == b,
{
    lemma_line_starts(t);
    let starts = line_starts(t);
    if a < b {
        assert(starts[a + 1] <= starts[b]);
    } else if b < a {
        assert(starts[b + 1] <= starts[a]);
    }
}

/// A text whose lines are known.
pub struct Text {
    chars: Vec<char>,
    starts: Vec<usize>,
}

impl View for Text {
    type V = Seq<char>;

    closed spec fn view(&self) -> Seq<char> {
        self.chars@
    }
}

impl Text {
    #[verifier::type_invariant]
    closed spec fn wf(self) -> bool {
        &&& self.starts@.len() == line_starts(self.chars@).len()
        &&& forall|i: int|
            0 <= i < self.starts@.len() ==> (#[trigger] self.starts@[i]) as nat == line_starts(
                self.chars@,
            )[i]
    }

    pub fn new(text: &str) -> (r: Text)
        ensures
            r@ == text@,
    {
        let chars = chars_of(text);
        let mut starts: Vec<usize> = Vec::new();
        starts.push(0);
        let mut i: usize = 0;
        assert(chars@.take(0) =~= seq![]);
        while i < chars.len()
            invariant
                i <= chars@.len(),
                starts@.len() == line_starts(chars@.take(i as int)).len(),
                forall|j: int|
                    0 <= j < starts@.len() ==> (#[trigger] starts@[j]) as nat == line_starts(
                        chars@.take(i as int),
                    )[j],
            decreases chars@.len() - i,
        {
            assert(chars@.take(i + 1).drop_last() =~= chars@.take(i as int));
            if chars[i] == '\n' {
                starts.push(i + 1);
            }
            i += 1;
        }
        assert(chars@.take(i as int) =~= chars@);
        Text { chars, starts }
    }

    pub fn len_chars(&self) -> (n: usize)
        ensures
            n == self@.len(),
    {
        self.chars.len()
    }

    pub fn len_lines(&self) -> (n: usize)
        ensures
            n == line_starts(self@).len(),
            n >= 1,
    {
        proof {
            use_type_invariant(self);
            lemma_line_starts(self@);
        }
        self.starts.len()
    }

    /// Where a line begins; the line behind the last one begins where the text ends.
    pub fn line_to_char(&self, line: usize) -> (at: usize)
        requires
            line <= line_starts(self@).len(),
        ensures
            at == if line < line_starts(self@).len() {
                line_starts(self@)[line as int]
            } else {
                self@.len()
            },
            at <= self@.len(),
    {
        proof {
            use_type_invariant(self);
            lemma_line_starts(self@);
        }
        if line < self.starts.len() {
            self.starts[line]
        } else {
            self.chars.len()
        }
    }

    /// The line of a position.
    pub fn char_to_line(&self, at: usize) -> (line: usize)
        requires
            at <= self@.len(),
        ensures
            is_line_of(self@, at as nat, line as int),
            line == line_of(self@, at as nat),
    {
        proof {
            use_type_invariant(self);
            lemma_line_starts(self@);
        }
        let mut low: usize = 0;
        let mut high: usize = self.starts.len();
        // The line is at or behind `low` and in front of `high`.
        while low + 1 < high
            invariant
                low < high <= self.starts@.len(),
                self.starts@.len() == line_starts(self@).len(),
                forall|i: int|
                    0 <= i < self.starts@.len() ==> (#[trigger] self.starts@[i]) as nat
                        == line_starts(self@)[i],
                self.starts@[low as int] <= at,
                high < self.starts@.len() ==> at < self.starts@[high as int],
            decreases high - low,
        {
            let middle: usize = low + (high - low) / 2;
            if self.starts[middle] <= at {
                low = middle;
            } else {
                high = middle;
            }
        }
        proof {
            law_positions_have_one_line(self@, at as nat, low as int, line_of(self@, at as nat));
        }
        low
    }

    /// Where a line ends, in front of what ends it.
    pub fn line_end_char_index(&self, line: usize) -> (at: usize)
        requires
            line < line_starts(self@).len(),
        ensures
            at == line_end(self@, line as int),
            line_starts(self@)[line as int] <= at <= self@.len(),
    {
        proof {
            use_type_invariant(self);
            lemma_line_starts(self@);
        }
        let lines: usize = self.starts.len();
        if line + 1 >= lines {
            return self.chars.len();
        }
        assert(line_starts(self@)[line as int] < line_starts(self@)[line + 1]);
        let feed: usize = self.starts[line + 1] - 1;
        if feed > self.starts[line] && self.chars[feed - 1] == '\r' {
            feed - 1
        } else {
            feed
        }
    }

    /// How far into a line its first character that is not white space is.
    pub fn first_non_whitespace_char(&self, line: usize) -> (r: Option<usize>)
        requires
            line < line_starts(self@).len(),
        ensures
            match (
                r,
                first_solid(
                    self@,
                    line_starts(self@)[line as int] as int,
                    next_start(self@, line as int) as int,
                ),
            ) {
                (Some(a), Some(b)) => a == b && line_starts(self@)[line as int] + a <= self@.len(),
                (None, None) => true,
                _ => false,
            },
    {
        proof {
            use_type_invariant(self);
            lemma_line_starts(self@);
        }
        let lines: usize = self.starts.len();
        assert(line < lines);
        let from: usize = self.starts[line];
        let to: usize = self.line_to_char(line + 1);
        let mut i: usize = from;
        while i < to
            invariant
                from <= i,
                line < line_starts(self@).len(),
                from == line_starts(self@)[line as int],
                to == next_start(self@, line as int),
                from <= to <= self.chars@.len(),
                self@ == self.chars@,
                i <= to,
                match (
                    first_solid(self@, from as int, to as int),
                    first_solid(self@, i as int, to as int),
                ) {
                    (Some(a), Some(b)) => a == b + (i - from),
                    (None, None) => true,
                    _ => false,
                },
            decreases to - i,
        {
            if !is_whitespace(self.chars[i]) {
                return Some(i - from);
            }
            i += 1;
        }
        None
    }

    /// The characters between two positions.
    pub fn slice(&self, from: usize, to: usize) -> (r: String)
        requires
            from <= to <= self@.len(),
        ensures
            r@ == self@.subrange(from as int, to as int),
    {
        let mut out = String::new();
        let mut i: usize = from;
        while i < to
            invariant
                from <= i <= to <= self.chars@.len(),
                out@ == self.chars@.subrange(from as int, i as int),
            decreases to - i,
        {
            out.push(self.chars[i]);
            i += 1;
            assert(self.chars@.subrange(from as int, i as int) =~= self.chars@.subrange(
                from as int,
                i - 1,
            ).push(self.chars@[i - 1]));
        }
        out
    }
}

/// Lines begin at the front of the text and behind each line feed, and nowhere else.
pub proof fn law_line_feeds_begin_lines(t: Seq<char>)
    ensures
        forall|i: int|
            0 <= i < t.len() ==> (#[trigger] t[i] == '\n' <==> line_starts(t).contains(
                (i + 1) as nat,
            )),
        line_starts(t).contains(0),
    decreases t.len(),
{
    if t.len() > 0 {
        let front = t.drop_last();
        let before = line_starts(front);
        let all = line_starts(t);
        law_line_feeds_begin_lines(front);
        lemma_line_starts(front);
        let k = before.index_of(0);
        assert(all[k] == 0);
        assert forall|i: int| 0 <= i < t.len() implies (#[trigger] t[i] == '\n' <==> all.contains(
            (i + 1) as nat,
        )) by {
            if i < front.len() {
                assert(front[i] == t[i]);
                if before.contains((i + 1) as nat) {
                    let k = before.index_of((i + 1) as nat);
                    assert(all[k] == (i + 1) as nat);
                } else if all.contains((i + 1) as nat) {
                    let k = all.index_of((i + 1) as nat);
                    if k < before.len() {
                        assert(before[k] == (i + 1) as nat);
                    }
                }
            } else if t[i] == '\n' {
                assert(all[before.len() as int] == (i + 1) as nat);
            } else if all.contains((i + 1) as nat) {
                let k = all.index_of((i + 1) as nat);
                assert(before[k] == t.len());
            }
        }
    } else {
        assert(line_starts(t)[0] == 0);
    }
}

/// A line ends on itself: in front of its line feed, or of the carriage return and line feed that
/// end it; the last line ends with the text.
pub proof fn law_lines_end_at_their_feed(t: Seq<char>, line: int)
    requires
        0 <= line < line_starts(t).len(),
    ensures
        ({
            let (start, end) = (line_starts(t)[line] as int, line_end(t, line) as int);
            &&& start <= end <= t.len()
            &&& forall|i: int| start <= i < end ==> #[trigger] t[i] != '\n'
            &&& end == t.len() || t[end] == '\n' || (t[end] == '\r' && end + 1 < t.len() && t[end
                + 1] == '\n')
            &&& end > start && end < t.len() && t[end] == '\n' ==> t[end - 1] != '\r'
        }),
{
    lemma_line_starts(t);
    law_line_feeds_begin_lines(t);
    let starts = line_starts(t);
    let (start, end) = (starts[line] as int, line_end(t, line) as int);
    if line + 1 < starts.len() {
        assert(starts[line] < starts[line + 1]);
        assert(t[starts[line + 1] - 1] == '\n');
    }
    assert forall|i: int| start <= i < end implies #[trigger] t[i] != '\n' by {
        if t[i] == '\n' {
            let k = starts.index_of((i + 1) as nat);
            assert(starts[k] == i + 1);
            if k <= line {
                assert(starts[k] <= starts[line]);
            } else {
                assert(starts[line + 1] <= starts[k]);
            }
        }
    }
}

/// Each position of a text is on a line.
pub proof fn law_positions_have_a_line(t: Seq<char>, at: nat)
    requires
        at <= t.len(),
    ensures
        is_line_of(t, at, line_of(t, at)),
{
    lemma_line_starts(t);
    lemma_line_of(t, at, 0);
}

proof fn lemma_line_of(t: Seq<char>, at: nat, from: int)
    requires
        0 <= from < line_starts(t).len(),
        line_starts(t)[from] <= at <= t.len(),
    ensures
        exists|line: int| is_line_of(t, at, line),
    decreases line_starts(t).len() - from,
{
    if from + 1 < line_starts(t).len() && line_starts(t)[from + 1] <= at {
        lemma_line_of(t, at, from + 1);
    } else {
        assert(is_line_of(t, at, from));
    }
}

/// What is found is the first character of the stretch that is not white space.
pub proof fn law_the_first_solid_character_is_found(t: Seq<char>, from: int, to: int)
    requires
        0 <= from <= to <= t.len(),
    ensures
        match first_solid(t, from, to) {
            Some(n) => from + n < to && !text::is_white(t[from + n]) && forall|i: int|
                from <= i < from + n ==> text::is_white(#[trigger] t[i]),
            None => forall|i: int| from <= i < to ==> text::is_white(#[trigger] t[i]),
        },
    decreases to - from,
{
    if from < to && text::is_white(t[from]) {
        law_the_first_solid_character_is_found(t, from + 1, to);
    }
}

/// The next line begins where this one ends: directly behind its line feed, or where the text
/// ends.
pub proof fn law_lines_end_where_the_next_begins(t: Seq<char>, line: int)
    requires
        0 <= line < line_starts(t).len(),
    ensures
        line + 1 < line_starts(t).len() ==> next_start(t, line) == line_starts(t)[line + 1]
            && line_starts(t)[line] < next_start(t, line) <= t.len(),
        line + 1 == line_starts(t).len() ==> next_start(t, line) == t.len(),
        line_starts(t)[line] <= next_start(t, line),
{
    lemma_line_starts(t);
}

} // verus!
