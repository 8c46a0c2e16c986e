//! Reports on what is installed and configured.

use vstd::prelude::*;
use vstd::utf8;

use crate::config::ConfigLoadError;
use crate::paths;
use crate::sorting;
use crate::sorting::sort;
use crate::text;
use crate::text::{chars_of, decimal_text, join, same_text};

verus! {

/// What a grammar can bring beside parsing.
#[derive(Debug, Clone, Copy, PartialEq, Eq, Structural)]
pub enum TsFeature {
    Highlight,
    TextObject,
    AutoIndent,
    Tags,
    RainbowBracket,
}

pub open spec fn all_features() -> Seq<TsFeature> {
    seq![
        TsFeature::Highlight,
        TsFeature::TextObject,
        TsFeature::AutoIndent,
        TsFeature::Tags,
        TsFeature::RainbowBracket,
    ]
}

impl TsFeature {
    pub open spec fn spec_runtime_filename(self) -> Seq<char> {
        match self {
            TsFeature::Highlight => "highlights.scm"@,
            TsFeature::TextObject => "textobjects.scm"@,
            TsFeature::AutoIndent => "indents.scm"@,
            TsFeature::Tags => "tags.scm"@,
            TsFeature::RainbowBracket => "rainbows.scm"@,
        }
    }

    pub open spec fn spec_long_title(self) -> Seq<char> {
        match self {
            TsFeature::Highlight => "Syntax Highlighting"@,
            TsFeature::TextObject => "Treesitter Textobjects"@,
            TsFeature::AutoIndent => "Auto Indent"@,
            TsFeature::Tags => "Code Navigation Tags"@,
            TsFeature::RainbowBracket => "Rainbow Brackets"@,
        }
    }

    pub open spec fn spec_short_title(self) -> Seq<char> {
        match self {
            TsFeature::Highlight => "Highlight"@,
            TsFeature::TextObject => "Textobject"@,
            TsFeature::AutoIndent => "Indent"@,
            TsFeature::Tags => "Tags"@,
            TsFeature::RainbowBracket => "Rainbow"@,
        }
    }

    pub fn all() -> (r: Vec<TsFeature>)
        ensures
            r@ == all_features(),
    {
        let mut features: Vec<TsFeature> = Vec::new();
        features.push(TsFeature::Highlight);
        features.push(TsFeature::TextObject);
        features.push(TsFeature::AutoIndent);
        features.push(TsFeature::Tags);
        features.push(TsFeature::RainbowBracket);
        assert(features@ =~= all_features());
        features
    }

    /// The file of queries that the feature needs.
    pub fn runtime_filename(&self) -> (r: &'static str)
        ensures
            r@ == self.spec_runtime_filename(),
    {
        match *self {
            TsFeature::Highlight => "highlights.scm",
            TsFeature::TextObject => "textobjects.scm",
            TsFeature::AutoIndent => "indents.scm",
            TsFeature::Tags => "tags.scm",
            TsFeature::RainbowBracket => "rainbows.scm",
        }
    }

    pub fn long_title(&self) -> (r: &'static str)
        ensures
            r@ == self.spec_long_title(),
    {
        match *self {
            TsFeature::Highlight => "Syntax Highlighting",
            TsFeature::TextObject => "Treesitter Textobjects",
            TsFeature::AutoIndent => "Auto Indent",
            TsFeature::Tags => "Code Navigation Tags",
            TsFeature::RainbowBracket => "Rainbow Brackets",
        }
    }

    pub fn short_title(&self) -> (r: &'static str)
        ensures
            r@ == self.spec_short_title(),
    {
        match *self {
            TsFeature::Highlight => "Highlight",
            TsFeature::TextObject => "Textobject",
            TsFeature::AutoIndent => "Indent",
            TsFeature::Tags => "Tags",
            TsFeature::RainbowBracket => "Rainbow",
        }
    }
}

/// Every feature is listed, once.
pub proof fn law_all_features_are_listed(feature: TsFeature)
    ensures
        all_features().contains(feature),
        all_features().no_duplicates(),
{
    let features = all_features();
    let i = match feature {
        TsFeature::Highlight => 0int,
        TsFeature::TextObject => 1,
        TsFeature::AutoIndent => 2,
        TsFeature::Tags => 3,
        TsFeature::RainbowBracket => 4,
    };
    assert(features[i] == feature);
}

/// How a text is colored.
#[derive(Debug, Clone, Copy, PartialEq, Eq, Structural)]
pub enum Color {
    Plain,
    Bold,
    Green,
    Yellow,
    Red,
    /// Red, and underlined.
    RedLink,
}

/// A text and its color.
#[derive(Debug)]
pub struct Cell {
    pub text: String,
    pub color: Color,
}

/// What a [`Cell`] says.
pub struct CellView {
    pub text: Seq<char>,
    pub color: Color,
}

impl View for Cell {
    type V = CellView;

    open spec fn view(&self) -> CellView {
        CellView { text: self.text@, color: self.color }
    }
}

pub open spec fn cell_views(cells: Seq<Cell>) -> Seq<CellView> {
    cells.map_values(|cell: Cell| cell@)
}

pub open spec fn blanks(n: nat) -> Seq<char> {
    Seq::new(n, |i: int| ' ')
}

/// Filled up with blanks to a width.
pub open spec fn padded(t: Seq<char>, width: nat) -> Seq<char> {
    if t.len() < width {
        t + blanks((width - t.len()) as nat)
    } else {
        t
    }
}

/// The first `n` bytes of a text, if it has that many and a character ends there.
pub open spec fn leading(t: Seq<char>, n: nat) -> Option<Seq<char>> {
    let bytes = utf8::encode_utf8(t);
    if n <= bytes.len() && utf8::is_char_boundary(bytes, n as int) {
        Some(utf8::decode_utf8(bytes.subrange(0, n as int)))
    } else {
        None
    }
}

/// A text cut and filled up to fit a column.
pub open spec fn fitted(t: Seq<char>, width: nat) -> Seq<char> {
    match leading(t, (width - 2) as nat) {
        Some(head) => padded(head.push('…'), width),
        None => padded(t, width),
    }
}

fn pad(t: &str, width: usize) -> (r: String)
    ensures
        r@ == padded(t@, width as nat),
{
    let mut out = t.to_owned();
    let chars = chars_of(t);
    let mut count: usize = chars.len();
    assert(out@ =~= t@ + blanks(0));
    while count < width
        invariant
            count >= t@.len(),
            t@.len() < width ==> count <= width,
            t@.len() >= width ==> count == t@.len(),
            out@ == t@ + blanks((count - t@.len()) as nat),
        decreases width - count,
    {
        out.push(' ');
        count += 1;
        assert(out@ =~= t@ + blanks((count - t@.len()) as nat));
    }
    assert(t@ + blanks(0) =~= t@);
    out
}

/// Cuts a text that is too long for a column, and fills up one that is too short.
pub fn fit(t: &str, column_width: usize) -> (r: String)
    requires
        column_width >= 2,
    ensures
        r@ == fitted(t@, column_width as nat),
{
    let keep: usize = column_width - 2;
    let total: usize = t.as_bytes().len();
    if keep <= total && t.is_char_boundary(keep) {
        let (head, _) = t.split_at(keep);
        proof {
            utf8::encode_utf8_decode_utf8(head@);
        }
        let mut cut = head.to_owned();
        cut.push('…');
        pad(cut.as_str(), column_width)
    } else {
        pad(t, column_width)
    }
}

/// A program that a language can use.
#[derive(Debug)]
pub struct Tool {
    pub name: String,
    /// Whether it can be started.
    pub found: bool,
}

/// A language server of a language.
#[derive(Debug)]
pub struct ServerTool {
    pub tool: Tool,
    /// Whether it is known how it is started.
    pub configured: bool,
}

/// What is known about a language.
#[derive(Debug)]
pub struct LanguageHealth {
    pub language_id: String,
    pub servers: Vec<ServerTool>,
    pub debugger: Option<Tool>,
    pub formatter: Option<Tool>,
    /// Whether each feature is there.
    pub features: Vec<bool>,
}

/// The servers that are configured.
pub open spec fn configured(servers: Seq<ServerTool>) -> Seq<Tool>
    decreases servers.len(),
{
    if servers.len() == 0 {
        seq![]
    } else if servers.last().configured {
        configured(servers.drop_last()).push(servers.last().tool)
    } else {
        configured(servers.drop_last())
    }
}

pub open spec fn plain(t: Seq<char>, width: nat) -> CellView {
    CellView { text: fitted(t, width), color: Color::Plain }
}

/// A program with a mark that says whether it can be started.
pub open spec fn tool_cell(tool: Tool, width: nat) -> CellView {
    if tool.found {
        CellView { text: fitted("✓ "@ + tool.name@, width), color: Color::Green }
    } else {
        CellView { text: fitted("✘ "@ + tool.name@, width), color: Color::Red }
    }
}

pub open spec fn optional_tool_cell(tool: Option<Tool>, width: nat) -> CellView {
    match tool {
        Some(tool) => tool_cell(tool, width),
        None => CellView { text: fitted("None"@, width), color: Color::Yellow },
    }
}

pub open spec fn feature_cell(found: bool, width: nat) -> CellView {
    if found {
        CellView { text: fitted("✓"@, width), color: Color::Green }
    } else {
        CellView { text: fitted("✘"@, width), color: Color::Red }
    }
}

/// The first row of a language: its first server, its other programs and its features.
pub open spec fn first_row(language: LanguageHealth, width: nat) -> Seq<CellView> {
    let servers = configured(language.servers@);
    seq![
        plain(language.language_id@, width),
        optional_tool_cell(
            if servers.len() > 0 {
                Some(servers[0])
            } else {
                None
            },
            width,
        ),
        optional_tool_cell(language.debugger, width),
        optional_tool_cell(language.formatter, width),
    ] + language.features@.map_values(|found: bool| feature_cell(found, width))
}

/// A row for a further server.
pub open spec fn server_row(tool: Tool, width: nat) -> Seq<CellView> {
    seq![plain(""@, width), tool_cell(tool, width)]
}

/// The rows of a language.
pub open spec fn language_rows(language: LanguageHealth, width: nat) -> Seq<Seq<CellView>> {
    let servers = configured(language.servers@);
    seq![first_row(language, width)] + (if servers.len() > 0 {
        servers.drop_first().map_values(|tool: Tool| server_row(tool, width))
    } else {
        seq![]
    })
}

pub open spec fn row_views(rows: Seq<Vec<Cell>>) -> Seq<Seq<CellView>> {
    rows.map_values(|row: Vec<Cell>| cell_views(row@))
}

fn make_tool_cell(tool: &Tool, width: usize) -> (r: Cell)
    requires
        width >= 2,
    ensures
        r@ == tool_cell(*tool, width as nat),
{
    if tool.found {
        Cell { text: fit(join("✓ ", tool.name.as_str()).as_str(), width), color: Color::Green }
    } else {
        Cell { text: fit(join("✘ ", tool.name.as_str()).as_str(), width), color: Color::Red }
    }
}

fn make_optional_cell(tool: &Option<Tool>, width: usize) -> (r: Cell)
    requires
        width >= 2,
    ensures
        r@ == optional_tool_cell(*tool, width as nat),
{
    match tool {
        Some(tool) => make_tool_cell(tool, width),
        None => Cell { text: fit("None", width), color: Color::Yellow },
    }
}

fn push_cell(cells: &mut Vec<Cell>, cell: Cell)
    ensures
        cell_views(final(cells)@) == cell_views(old(cells)@).push(cell@),
{
    cells.push(cell);
    assert(cell_views(cells@) =~= cell_views(old(cells)@).push(cell@));
}

fn push_row(rows: &mut Vec<Vec<Cell>>, row: Vec<Cell>)
    ensures
        row_views(final(rows)@) == row_views(old(rows)@).push(cell_views(row@)),
{
    rows.push(row);
    assert(row_views(rows@) =~= row_views(old(rows)@).push(cell_views(row@)));
}

/// The place of the first configured server behind some.
fn next_configured(servers: &Vec<ServerTool>, from: usize) -> (r: Option<usize>)
    requires
        from <= servers@.len(),
    ensures
        match r {
            Some(i) => {
                &&& from <= i < servers@.len()
                &&& servers@[i as int].configured
                &&& configured(servers@.take(i as int)) == configured(servers@.take(from as int))
                &&& configured(servers@.take(i + 1)) == configured(servers@.take(from as int)).push(
                    servers@[i as int].tool,
                )
            },
            None => configured(servers@) == configured(servers@.take(from as int)),
        },
{
    let mut i: usize = from;
    while i < servers.len()
        invariant
            from <= i <= servers@.len(),
            configured(servers@.take(i as int)) == configured(servers@.take(from as int)),
        decreases servers@.len() - i,
    {
        assert(servers@.take(i + 1).drop_last() =~= servers@.take(i as int));
        assert(servers@.take(i + 1).last() == servers@[i as int]);
        if servers[i].configured {
            return Some(i);
        }
        i += 1;
    }
    assert(servers@.take(i as int) =~= servers@);
    None
}

proof fn lemma_configured_grows(servers: Seq<ServerTool>, n: int)
    requires
        0 <= n <= servers.len(),
    ensures
        configured(servers.take(n)).len() <= configured(servers).len(),
        configured(servers).take(configured(servers.take(n)).len() as int) == configured(
            servers.take(n),
        ),
    decreases servers.len() - n,
{
    if n == servers.len() {
        assert(servers.take(n) =~= servers);
        assert(configured(servers).take(configured(servers).len() as int) =~= configured(servers));
    } else {
        lemma_configured_grows(servers, n + 1);
        assert(servers.take(n + 1).drop_last() =~= servers.take(n));
        let less = configured(servers.take(n));
        let more = configured(servers.take(n + 1));
        assert(configured(servers).take(less.len() as int) =~= configured(servers).take(
            more.len() as int,
        ).take(less.len() as int));
        assert(more.take(less.len() as int) =~= less);
    }
}

fn make_first_row(language: &LanguageHealth, first: Option<usize>, width: usize) -> (r: Vec<Cell>)
    requires
        width >= 2,
        match first {
            Some(i) => i < language.servers@.len() && configured(language.servers@).len() > 0
                && configured(language.servers@)[0] == language.servers@[i as int].tool,
            None => configured(language.servers@).len() == 0,
        },
    ensures
        cell_views(r@) == first_row(*language, width as nat),
{
    let mut cells: Vec<Cell> = Vec::new();
    assert(cell_views(cells@) =~= seq![]);
    push_cell(
        &mut cells,
        Cell { text: fit(language.language_id.as_str(), width), color: Color::Plain },
    );
    let server = match first {
        Some(i) => make_tool_cell(&language.servers[i].tool, width),
        None => make_optional_cell(&None, width),
    };
    push_cell(&mut cells, server);
    push_cell(&mut cells, make_optional_cell(&language.debugger, width));
    push_cell(&mut cells, make_optional_cell(&language.formatter, width));
    let ghost head = cell_views(cells@);
    let mut i: usize = 0;
    assert(head + language.features@.take(0).map_values(
        |found: bool| feature_cell(found, width as nat),
    ) =~= head);
    while i < language.features.len()
        invariant
            i <= language.features@.len(),
            width >= 2,
            cell_views(cells@) == head + language.features@.take(i as int).map_values(
                |found: bool| feature_cell(found, width as nat),
            ),
        decreases language.features@.len() - i,
    {
        let ghost before = cell_views(cells@);
        let cell = if language.features[i] {
            Cell { text: fit("✓", width), color: Color::Green }
        } else {
            Cell { text: fit("✘", width), color: Color::Red }
        };
        push_cell(&mut cells, cell);
        assert(cell@ == feature_cell(language.features@[i as int], width as nat));
        assert(head + language.features@.take(i + 1).map_values(
            |found: bool| feature_cell(found, width as nat),
        ) =~= before.push(cell@));
        i += 1;
    }
    assert(language.features@.take(i as int) =~= language.features@);
    assert(cell_views(cells@) =~= first_row(*language, width as nat));
    cells
}

fn push_language(rows: &mut Vec<Vec<Cell>>, language: &LanguageHealth, width: usize)
    requires
        width >= 2,
    ensures
        row_views(final(rows)@) == row_views(old(rows)@) + language_rows(*language, width as nat),
{
    let ghost before = row_views(rows@);
    let ghost w = width as nat;
    let ghost servers = configured(language.servers@);
    assert(language.servers@.take(0) =~= seq![]);
    let first = next_configured(&language.servers, 0);
    proof {
        if let Some(i) = first {
            lemma_configured_grows(language.servers@, i + 1);
            assert(configured(language.servers@.take(i + 1)).len() == 1);
            assert(servers.take(1)[0] == servers[0]);
        }
    }
    let row = make_first_row(language, first, width);
    push_row(rows, row);
    let total: usize = language.servers.len();
    let mut done: usize = match first {
        Some(i) => i + 1,
        None => {
            assert(row_views(rows@) =~= before + language_rows(*language, w));
            return;
        },
    };
    let ghost rest = servers.drop_first().map_values(|tool: Tool| server_row(tool, w));
    let ghost mut count: int = 1;
    assert(row_views(rows@) =~= before + seq![first_row(*language, w)] + rest.take(0));
    let mut more = true;
    while more
        invariant
            width >= 2,
            w == width as nat,
            total == language.servers@.len(),
            done <= total,
            servers == configured(language.servers@),
            rest == servers.drop_first().map_values(|tool: Tool| server_row(tool, w)),
            1 <= count <= servers.len(),
            more ==> count == configured(language.servers@.take(done as int)).len(),
            !more ==> count == servers.len(),
            row_views(rows@) == before + seq![first_row(*language, w)] + rest.take(count - 1),
        decreases
            total - done,
            if more {
                1int
            } else {
                0
            },
    {
        match next_configured(&language.servers, done) {
            Some(i) => {
                proof {
                    lemma_configured_grows(language.servers@, i + 1);
                    let more = configured(language.servers@.take(i + 1));
                    assert(servers.take(more.len() as int)[count] == more[count]);
                    assert(servers[count] == language.servers@[i as int].tool);
                }
                let mut cells: Vec<Cell> = Vec::new();
                assert(cell_views(cells@) =~= seq![]);
                push_cell(&mut cells, Cell { text: fit("", width), color: Color::Plain });
                push_cell(&mut cells, make_tool_cell(&language.servers[i].tool, width));
                assert(cell_views(cells@) =~= server_row(language.servers@[i as int].tool, w));
                push_row(rows, cells);
                proof {
                    assert(rest[count - 1] == server_row(servers[count], w));
                    assert(rest.take(count) =~= rest.take(count - 1).push(rest[count - 1]));
                    assert(row_views(rows@) =~= before + seq![first_row(*language, w)]
                        + rest.take(count));
                    count = count + 1;
                }
                done = i + 1;
            },
            None => {
                more = false;
            },
        }
    }
    assert(rest.take(servers.len() - 1) =~= rest);
    assert(row_views(rows@) =~= before + language_rows(*language, w));
}

/// The language is to be listed.
pub open spec fn is_selected(selection: Option<Vec<String>>, id: Seq<char>) -> bool {
    match selection {
        Some(ids) => exists|i: int| 0 <= i < ids@.len() && (#[trigger] ids@[i])@ == id,
        None => true,
    }
}

fn selected(selection: &Option<Vec<String>>, id: &str) -> (r: bool)
    ensures
        r == is_selected(*selection, id@),
{
    match selection {
        Some(ids) => {
            let mut i: usize = 0;
            while i < ids.len()
                invariant
                    i <= ids@.len(),
                    selection == Some(*ids),
                    forall|j: int| 0 <= j < i ==> (#[trigger] ids@[j])@ != id@,
                decreases ids@.len() - i,
            {
                if same_text(ids[i].as_str(), id) {
                    assert(selection->0 == *ids);
                    assert(selection->0@[i as int]@ == id@);
                    return true;
                }
                i += 1;
            }
            false
        },
        None => true,
    }
}

/// The rows of the languages that are listed.
pub open spec fn listed_rows(
    languages: Seq<(String, LanguageHealth)>,
    selection: Option<Vec<String>>,
    width: nat,
) -> Seq<Seq<CellView>>
    decreases languages.len(),
{
    if languages.len() == 0 {
        seq![]
    } else {
        let rest = listed_rows(languages.drop_last(), selection, width);
        let last = languages.last().1;
        if is_selected(selection, last.language_id@) {
            rest + language_rows(last, width)
        } else {
            rest
        }
    }
}

pub open spec fn by_id(languages: Seq<LanguageHealth>) -> Seq<(String, LanguageHealth)> {
    languages.map_values(|language: LanguageHealth| (language.language_id, language))
}

/// The columns: a language, its programs and its features.
pub open spec fn headings() -> Seq<Seq<char>> {
    seq!["Language"@, "Language servers"@, "Debug adapter"@, "Formatter"@]
        + all_features().map_values(|feature: TsFeature| feature.spec_short_title())
}

pub open spec fn heading_row(width: nat) -> Seq<CellView> {
    headings().map_values(
        |title: Seq<char>| CellView { text: fitted(title, width), color: Color::Bold },
    )
}

fn push_heading(cells: &mut Vec<Cell>, title: &str, width: usize)
    requires
        width >= 2,
    ensures
        cell_views(final(cells)@) == cell_views(old(cells)@).push(
            CellView { text: fitted(title@, width as nat), color: Color::Bold },
        ),
{
    push_cell(cells, Cell { text: fit(title, width), color: Color::Bold });
}

fn make_heading_row(width: usize) -> (r: Vec<Cell>)
    requires
        width >= 2,
    ensures
        cell_views(r@) == heading_row(width as nat),
{
    let mut cells: Vec<Cell> = Vec::new();
    assert(cell_views(cells@) =~= seq![]);
    push_heading(&mut cells, "Language", width);
    push_heading(&mut cells, "Language servers", width);
    push_heading(&mut cells, "Debug adapter", width);
    push_heading(&mut cells, "Formatter", width);
    push_heading(&mut cells, TsFeature::Highlight.short_title(), width);
    push_heading(&mut cells, TsFeature::TextObject.short_title(), width);
    push_heading(&mut cells, TsFeature::AutoIndent.short_title(), width);
    push_heading(&mut cells, TsFeature::Tags.short_title(), width);
    push_heading(&mut cells, TsFeature::RainbowBracket.short_title(), width);
    assert(cell_views(cells@) =~= heading_row(width as nat));
    cells
}

/// How wide a column is on a terminal.
pub fn column_width(terminal_cols: u16) -> (r: usize)
    ensures
        r == terminal_cols as int / headings().len() as int,
{
    (terminal_cols / 9) as usize
}

/// The table of languages in the order of their names: all of them, or those that are selected.
pub open spec fn language_table(
    languages: Seq<LanguageHealth>,
    selection: Option<Vec<String>>,
    width: nat,
) -> Seq<Seq<CellView>> {
    seq![heading_row(width)] + listed_rows(sorting::sorted(by_id(languages)), selection, width)
}

/// Puts the table of languages together.
pub fn languages(selection: Option<Vec<String>>, known: Vec<LanguageHealth>, width: usize) -> (r: Vec<
    Vec<Cell>,
>)
    requires
        width >= 2,
    ensures
        row_views(r@) == language_table(known@, selection, width as nat),
{
    let ghost all = known@;
    let ghost w = width as nat;
    let mut pairs: Vec<(String, LanguageHealth)> = Vec::new();
    for language in it: known
        invariant
            it.seq() == all,
            pairs@.len() == it.index(),
            forall|j: int|
                0 <= j < it.index() ==> #[trigger] pairs@[j] == (all[j].language_id, all[j]),
    {
        pairs.push((language.language_id.clone(), language));
    }
    assert(pairs@ =~= by_id(all));
    let ordered = sort(pairs);
    let mut rows: Vec<Vec<Cell>> = Vec::new();
    assert(row_views(rows@) =~= seq![]);
    push_row(&mut rows, make_heading_row(width));
    let ghost head = row_views(rows@);
    assert(head =~= seq![heading_row(w)]);
    let mut i: usize = 0;
    assert(ordered@.take(0) =~= seq![]);
    assert(head + listed_rows(ordered@.take(0), selection, w) =~= head);
    while i < ordered.len()
        invariant
            i <= ordered@.len(),
            width >= 2,
            w == width as nat,
            row_views(rows@) == head + listed_rows(ordered@.take(i as int), selection, w),
        decreases ordered@.len() - i,
    {
        assert(ordered@.take(i + 1).drop_last() =~= ordered@.take(i as int));
        let ghost so_far = listed_rows(ordered@.take(i as int), selection, w);
        let language = &ordered[i].1;
        if selected(&selection, language.language_id.as_str()) {
            push_language(&mut rows, language, width);
            assert(head + so_far + language_rows(*language, w) =~= head + (so_far
                + language_rows(*language, w)));
        }
        i += 1;
    }
    assert(ordered@.take(i as int) =~= ordered@);
    rows
}

/// The table of all languages.
pub fn languages_all(known: Vec<LanguageHealth>, width: usize) -> (r: Vec<Vec<Cell>>)
    requires
        width >= 2,
    ensures
        row_views(r@) == language_table(known@, None, width as nat),
{
    languages(None, known, width)
}

/// The table of the languages whose grammars are used, or of all if that is not configured.
pub fn languages_selection(
    grammars: Option<Vec<String>>,
    known: Vec<LanguageHealth>,
    width: usize,
) -> (r: Vec<Vec<Cell>>)
    requires
        width >= 2,
    ensures
        row_views(r@) == language_table(known@, grammars, width as nat),
{
    languages(grammars, known, width)
}

/// What is said below a table that is not complete.
pub fn selection_note(selected: bool) -> (r: Option<String>)
    ensures
        match r {
            Some(note) => selected && note@
                == "\nThis list is filtered according to the 'use-grammars' option in languages.toml file.\nTo see the full list, use the '--health all' or '--health all-languages' option."@,
            None => !selected,
        },
{
    if selected {
        Some(
            "\nThis list is filtered according to the 'use-grammars' option in languages.toml file.\nTo see the full list, use the '--health all' or '--health all-languages' option.".to_owned(),
        )
    } else {
        None
    }
}

/// Where a program was found.
#[derive(Debug)]
#[allow(inconsistent_fields)]
pub enum Origin {
    Explicit,
    Managed { name: String, version: String },
    Path,
    RuntimeOverride { root: String },
    BundledRuntime { root: String },
}

pub open spec fn origin_text(origin: Origin) -> Seq<char> {
    match origin {
        Origin::Explicit => "explicit path"@,
        Origin::Managed { name, version } => "pkg "@ + name@ + " "@ + version@,
        Origin::Path => "$PATH"@,
        Origin::RuntimeOverride { root } => "runtime override "@ + root@,
        Origin::BundledRuntime { root } => "bundled runtime "@ + root@,
    }
}

/// How it is said where a program was found.
pub fn origin_label(origin: &Origin) -> (r: String)
    ensures
        r@ == origin_text(*origin),
{
    match origin {
        Origin::Explicit => "explicit path".to_owned(),
        Origin::Managed { name, version } => {
            let mut text = join("pkg ", name.as_str());
            text.append(" ");
            text.append(version.as_str());
            text
        },
        Origin::Path => "$PATH".to_owned(),
        Origin::RuntimeOverride { root } => join("runtime override ", root.as_str()),
        Origin::BundledRuntime { root } => join("bundled runtime ", root.as_str()),
    }
}

/// A program that was found.
#[derive(Debug)]
pub struct Resolved {
    pub program: String,
    pub origin: Origin,
}

/// What is said about a program that was looked for.
pub open spec fn diagnosis(command: Seq<char>, resolved: Result<Option<Resolved>, String>) -> CellView {
    match resolved {
        Ok(Some(found)) => CellView {
            text: found.program@ + " ("@ + origin_text(found.origin) + ")"@,
            color: Color::Green,
        },
        Ok(None) => CellView {
            text: "'"@ + command + "' not found in runtime assets or $PATH"@,
            color: Color::Red,
        },
        Err(error) => CellView { text: error@, color: Color::Red },
    }
}

/// Says what became of the search for a program.
pub fn diagnose(command: &str, resolved: &Result<Option<Resolved>, String>) -> (r: Cell)
    ensures
        r@ == diagnosis(command@, *resolved),
{
    match resolved {
        Ok(Some(found)) => {
            let mut text = join(found.program.as_str(), " (");
            text.append(origin_label(&found.origin).as_str());
            text.append(")");
            Cell { text, color: Color::Green }
        },
        Ok(None) => {
            let mut text = join("'", command);
            text.append("' not found in runtime assets or $PATH");
            Cell { text, color: Color::Red }
        },
        Err(error) => Cell { text: error.clone(), color: Color::Red },
    }
}

/// A program that a language is configured to use, and what became of the search for it.
#[derive(Debug)]
pub struct Probe {
    pub name: String,
    pub command: String,
    pub resolved: Result<Option<Resolved>, String>,
}

/// A check mark for what was found, a cross for what was not.
pub open spec fn mark(found: bool) -> CellView {
    if found {
        CellView { text: "✓"@, color: Color::Green }
    } else {
        CellView { text: "✘"@, color: Color::Red }
    }
}

pub open spec fn plain_text(t: Seq<char>) -> CellView {
    CellView { text: t, color: Color::Plain }
}

pub open spec fn yellow_text(t: Seq<char>) -> CellView {
    CellView { text: t, color: Color::Yellow }
}

pub open spec fn is_found(resolved: Result<Option<Resolved>, String>) -> bool {
    match resolved {
        Ok(Some(_)) => true,
        _ => false,
    }
}

/// A program's line in a list of programs.
pub open spec fn listed_probe(probe: Probe) -> Seq<CellView> {
    seq![
        plain_text("  "@),
        mark(is_found(probe.resolved)),
        plain_text(" "@ + probe.name@ + ": "@),
        diagnosis(probe.command@, probe.resolved),
    ]
}

/// The lines about programs of one kind.
pub open spec fn protocols_report(protocol: Seq<char>, probes: Seq<Probe>) -> Seq<Seq<CellView>> {
    let title = plain_text("Configured "@ + protocol + "s:"@);
    if probes.len() == 0 {
        seq![seq![title, yellow_text(" None"@)]]
    } else {
        seq![seq![title]] + probes.map_values(|probe: Probe| listed_probe(probe))
    }
}

/// The lines about a single program.
pub open spec fn protocol_report(protocol: Seq<char>, probe: Option<Probe>) -> Seq<Seq<CellView>> {
    let title = plain_text("Configured "@ + protocol + ":"@);
    match probe {
        None => seq![seq![title, yellow_text(" None"@)]],
        Some(probe) => seq![
            seq![title],
            seq![
                plain_text("  "@),
                mark(is_found(probe.resolved)),
                plain_text(" "@),
                diagnosis(probe.command@, probe.resolved),
            ],
        ],
    }
}

pub open spec fn parser_report(found: bool) -> Seq<CellView> {
    seq![
        plain_text("Tree-sitter parser: "@),
        if found {
            mark(true)
        } else {
            yellow_text("None"@)
        },
    ]
}

pub open spec fn feature_report(feature: TsFeature, found: bool) -> Seq<CellView> {
    seq![plain_text(feature.spec_short_title() + " queries: "@), mark(found)]
}

fn make_mark(found: bool) -> (r: Cell)
    ensures
        r@ == mark(found),
{
    if found {
        Cell { text: "✓".to_owned(), color: Color::Green }
    } else {
        Cell { text: "✘".to_owned(), color: Color::Red }
    }
}

fn plain_cell(t: &str) -> (r: Cell)
    ensures
        r@ == plain_text(t@),
{
    Cell { text: t.to_owned(), color: Color::Plain }
}

fn yellow_cell(t: &str) -> (r: Cell)
    ensures
        r@ == yellow_text(t@),
{
    Cell { text: t.to_owned(), color: Color::Yellow }
}

fn found(resolved: &Result<Option<Resolved>, String>) -> (r: bool)
    ensures
        r == is_found(*resolved),
{
    match resolved {
        Ok(Some(_)) => true,
        _ => false,
    }
}

fn row_of(cell: Cell) -> (r: Vec<Cell>)
    ensures
        cell_views(r@) == seq![cell@],
{
    let mut cells: Vec<Cell> = Vec::new();
    cells.push(cell);
    assert(cell_views(cells@) =~= seq![cell@]);
    cells
}

fn listed(probe: &Probe) -> (r: Vec<Cell>)
    ensures
        cell_views(r@) == listed_probe(*probe),
{
    let mut cells = row_of(plain_cell("  "));
    push_cell(&mut cells, make_mark(found(&probe.resolved)));
    let mut name = join(" ", probe.name.as_str());
    name.append(": ");
    push_cell(&mut cells, Cell { text: name, color: Color::Plain });
    push_cell(&mut cells, diagnose(probe.command.as_str(), &probe.resolved));
    assert(cell_views(cells@) =~= listed_probe(*probe));
    cells
}

/// Reports on several programs, such as language servers.
pub fn probe_protocols(protocol_name: &str, probes: &Vec<Probe>) -> (r: Vec<Vec<Cell>>)
    ensures
        row_views(r@) == protocols_report(protocol_name@, probes@),
{
    let mut title = join("Configured ", protocol_name);
    title.append("s:");
    let mut cells = row_of(Cell { text: title, color: Color::Plain });
    let mut rows: Vec<Vec<Cell>> = Vec::new();
    assert(row_views(rows@) =~= seq![]);
    if probes.len() == 0 {
        push_cell(&mut cells, yellow_cell(" None"));
        push_row(&mut rows, cells);
        assert(row_views(rows@)[0] =~= protocols_report(protocol_name@, probes@)[0]);
        assert(row_views(rows@) =~= protocols_report(protocol_name@, probes@));
        return rows;
    }
    push_row(&mut rows, cells);
    let ghost head = row_views(rows@);
    let mut i: usize = 0;
    assert(head + probes@.take(0).map_values(|probe: Probe| listed_probe(probe)) =~= head);
    while i < probes.len()
        invariant
            i <= probes@.len(),
            row_views(rows@) == head + probes@.take(i as int).map_values(
                |probe: Probe| listed_probe(probe),
            ),
        decreases probes@.len() - i,
    {
        let ghost before = row_views(rows@);
        push_row(&mut rows, listed(&probes[i]));
        assert(head + probes@.take(i + 1).map_values(|probe: Probe| listed_probe(probe))
            =~= before.push(listed_probe(probes@[i as int])));
        i += 1;
    }
    assert(probes@.take(i as int) =~= probes@);
    rows
}

/// Reports on a single program, such as a debug adapter.
pub fn probe_protocol(protocol_name: &str, probe: &Option<Probe>) -> (r: Vec<Vec<Cell>>)
    ensures
        row_views(r@) == protocol_report(protocol_name@, *probe),
{
    let mut title = join("Configured ", protocol_name);
    title.append(":");
    let mut cells = row_of(Cell { text: title, color: Color::Plain });
    let mut rows: Vec<Vec<Cell>> = Vec::new();
    assert(row_views(rows@) =~= seq![]);
    match probe {
        None => {
            push_cell(&mut cells, yellow_cell(" None"));
            push_row(&mut rows, cells);
        },
        Some(probe) => {
            push_row(&mut rows, cells);
            let mut line = row_of(plain_cell("  "));
            push_cell(&mut line, make_mark(found(&probe.resolved)));
            push_cell(&mut line, plain_cell(" "));
            push_cell(&mut line, diagnose(probe.command.as_str(), &probe.resolved));
            push_row(&mut rows, line);
        },
    }
    assert(row_views(rows@) =~~= protocol_report(protocol_name@, *probe));
    rows
}

/// Reports on whether there is a parser.
pub fn probe_parser(found: bool) -> (r: Vec<Cell>)
    ensures
        cell_views(r@) == parser_report(found),
{
    let mut cells = row_of(plain_cell("Tree-sitter parser: "));
    if found {
        push_cell(&mut cells, make_mark(true));
    } else {
        push_cell(&mut cells, yellow_cell("None"));
    }
    assert(cell_views(cells@) =~= parser_report(found));
    cells
}

/// Reports on whether there are queries for a feature.
pub fn probe_treesitter_feature(feature: TsFeature, found: bool) -> (r: Vec<Cell>)
    ensures
        cell_views(r@) == feature_report(feature, found),
{
    let title = join(feature.short_title(), " queries: ");
    let mut cells = row_of(Cell { text: title, color: Color::Plain });
    push_cell(&mut cells, make_mark(found));
    assert(cell_views(cells@) =~= feature_report(feature, found));
    cells
}

/// What is known about the language that was asked for.
#[derive(Debug)]
pub struct LanguageProbe {
    pub servers: Vec<Probe>,
    pub debugger: Option<Probe>,
    pub formatter: Option<Probe>,
    pub parser: bool,
    pub highlight: bool,
    pub text_object: bool,
    pub auto_indent: bool,
    pub tags: bool,
    pub rainbow_bracket: bool,
}

/// The lines about a language.
pub open spec fn language_lines(probe: LanguageProbe) -> Seq<Seq<CellView>> {
    protocols_report("language server"@, probe.servers@) + protocol_report(
        "debug adapter"@,
        probe.debugger,
    ) + protocol_report("formatter"@, probe.formatter) + seq![
        parser_report(probe.parser),
        feature_report(TsFeature::Highlight, probe.highlight),
        feature_report(TsFeature::TextObject, probe.text_object),
        feature_report(TsFeature::AutoIndent, probe.auto_indent),
        feature_report(TsFeature::Tags, probe.tags),
        feature_report(TsFeature::RainbowBracket, probe.rainbow_bracket),
    ]
}

fn push_rows(rows: &mut Vec<Vec<Cell>>, more: Vec<Vec<Cell>>)
    ensures
        row_views(final(rows)@) == row_views(old(rows)@) + row_views(more@),
{
    let ghost added = more@;
    let mut more = more;
    rows.append(&mut more);
    assert(row_views(rows@) =~= row_views(old(rows)@) + row_views(added));
}

/// Reports on a language.
pub fn language(probe: &LanguageProbe) -> (r: Vec<Vec<Cell>>)
    ensures
        row_views(r@) == language_lines(*probe),
{
    let mut rows = probe_protocols("language server", &probe.servers);
    push_rows(&mut rows, probe_protocol("debug adapter", &probe.debugger));
    push_rows(&mut rows, probe_protocol("formatter", &probe.formatter));
    push_row(&mut rows, probe_parser(probe.parser));
    push_row(&mut rows, probe_treesitter_feature(TsFeature::Highlight, probe.highlight));
    push_row(&mut rows, probe_treesitter_feature(TsFeature::TextObject, probe.text_object));
    push_row(&mut rows, probe_treesitter_feature(TsFeature::AutoIndent, probe.auto_indent));
    push_row(&mut rows, probe_treesitter_feature(TsFeature::Tags, probe.tags));
    push_row(
        &mut rows,
        probe_treesitter_feature(TsFeature::RainbowBracket, probe.rainbow_bracket),
    );
    assert(row_views(rows@) =~= language_lines(*probe));
    rows
}

/// Where a language is among the known ones.
pub open spec fn language_index(ids: Seq<String>, wanted: Seq<char>) -> Option<int>
    decreases ids.len(),
{
    if ids.len() == 0 {
        None
    } else if ids[0]@ == wanted {
        Some(0int)
    } else {
        match language_index(ids.drop_first(), wanted) {
            Some(i) => Some(i + 1),
            None => None,
        }
    }
}

/// The languages that begin with a character.
pub open spec fn beginning_with(ids: Seq<String>, c: char) -> Seq<Seq<char>>
    decreases ids.len(),
{
    if ids.len() == 0 {
        seq![]
    } else {
        let rest = beginning_with(ids.drop_last(), c);
        if ids.last()@.len() > 0 && ids.last()@[0] == c {
            rest.push(ids.last()@)
        } else {
            rest
        }
    }
}

/// A language that is known, or those that may be meant.
#[derive(Debug)]
pub enum LanguageLookup {
    Found(usize),
    Suggestions(Vec<String>),
}

fn suggest(ids: &Vec<String>, c: char) -> (r: Vec<String>)
    ensures
        paths::parts(r@) == beginning_with(ids@, c),
{
    let mut out: Vec<String> = Vec::new();
    let mut i: usize = 0;
    assert(ids@.take(0) =~= seq![]);
    assert(paths::parts(out@) =~= seq![]);
    while i < ids.len()
        invariant
            i <= ids@.len(),
            paths::parts(out@) == beginning_with(ids@.take(i as int), c),
        decreases ids@.len() - i,
    {
        assert(ids@.take(i + 1).drop_last() =~= ids@.take(i as int));
        let ghost before = out@;
        let chars = chars_of(ids[i].as_str());
        if chars.len() > 0 && chars[0] == c {
            out.push(ids[i].clone());
            assert(paths::parts(out@) =~= paths::parts(before).push(ids@[i as int]@));
        }
        i += 1;
    }
    assert(ids@.take(i as int) =~= ids@);
    out
}

/// Looks a language up. If it is not known, those that begin with the same character are
/// suggested.
pub fn find_language(ids: &Vec<String>, wanted: &str) -> (r: LanguageLookup)
    requires
        wanted@.len() > 0,
    ensures
        match r {
            LanguageLookup::Found(i) => i < ids@.len() && language_index(ids@, wanted@) == Some(
                i as int,
            ),
            LanguageLookup::Suggestions(names) => language_index(ids@, wanted@) is None
                && paths::parts(names@) == beginning_with(ids@, wanted@[0]),
        },
{
    let mut i: usize = 0;
    assert(ids@.skip(0) =~= ids@);
    while i < ids.len()
        invariant
            i <= ids@.len(),
            match language_index(ids@.skip(i as int), wanted@) {
                Some(k) => language_index(ids@, wanted@) == Some(k + i),
                None => language_index(ids@, wanted@) is None,
            },
        decreases ids@.len() - i,
    {
        assert(ids@.skip(i as int).drop_first() =~= ids@.skip(i + 1));
        if same_text(ids[i].as_str(), wanted) {
            return LanguageLookup::Found(i);
        }
        i += 1;
    }
    let chars = chars_of(wanted);
    LanguageLookup::Suggestions(suggest(ids, chars[0]))
}

/// Texts with a comma between each two.
pub open spec fn with_commas(texts: Seq<Seq<char>>) -> Seq<char>
    decreases texts.len(),
{
    if texts.len() == 0 {
        seq![]
    } else if texts.len() == 1 {
        texts[0]
    } else {
        with_commas(texts.drop_last()) + ", "@ + texts.last()
    }
}

fn join_with_commas(texts: &Vec<String>) -> (r: String)
    ensures
        r@ == with_commas(paths::parts(texts@)),
{
    let mut out = String::new();
    let mut i: usize = 0;
    let ghost all = paths::parts(texts@);
    assert(out@ =~= with_commas(all.take(0)));
    while i < texts.len()
        invariant
            i <= texts@.len(),
            all == paths::parts(texts@),
            out@ == with_commas(all.take(i as int)),
        decreases texts@.len() - i,
    {
        assert(all.take(i + 1).drop_last() =~= all.take(i as int));
        assert(all.take(i + 1).last() == texts@[i as int]@);
        if i > 0 {
            out.append(", ");
        }
        out.append(texts[i].as_str());
        assert(out@ =~= with_commas(all.take(i + 1)));
        i += 1;
    }
    assert(all.take(i as int) =~= all);
    out
}

/// The lines about a language that is not known.
pub open spec fn unknown_language_lines(
    wanted: Seq<char>,
    suggestions: Seq<Seq<char>>,
) -> Seq<Seq<CellView>> {
    let head = seq![CellView { text: "Language '"@ + wanted + "' not found"@, color: Color::Red }];
    if suggestions.len() == 0 {
        seq![head]
    } else {
        seq![
            head,
            seq![
                plain_text("Did you mean one of these: "@),
                yellow_text(with_commas(suggestions)),
                plain_text(" ?"@),
            ],
        ]
    }
}

/// Reports that a language is not known, and which may be meant.
pub fn unknown_language(wanted: &str, suggestions: &Vec<String>) -> (r: Vec<Vec<Cell>>)
    ensures
        row_views(r@) == unknown_language_lines(wanted@, paths::parts(suggestions@)),
{
    let mut text = join("Language '", wanted);
    text.append("' not found");
    let mut rows: Vec<Vec<Cell>> = Vec::new();
    assert(row_views(rows@) =~= seq![]);
    push_row(&mut rows, row_of(Cell { text, color: Color::Red }));
    if suggestions.len() > 0 {
        let mut cells = row_of(plain_cell("Did you mean one of these: "));
        push_cell(&mut cells, Cell { text: join_with_commas(suggestions), color: Color::Yellow });
        push_cell(&mut cells, plain_cell(" ?"));
        push_row(&mut rows, cells);
    }
    assert(row_views(rows@) =~~= unknown_language_lines(wanted@, paths::parts(suggestions@)));
    rows
}

pub open spec fn file_text(label: Seq<char>, path: Option<String>) -> Seq<char> {
    match path {
        Some(path) => label + ": "@ + path@,
        None => label + ": default"@,
    }
}

/// Says which file is used, or that there is none.
pub fn file_line(label: &str, path: &Option<String>) -> (r: String)
    ensures
        r@ == file_text(label@, *path),
{
    match path {
        Some(path) => {
            let mut text = join(label, ": ");
            text.append(path.as_str());
            text
        },
        None => join(label, ": default"),
    }
}

/// What can be wrong with a directory of runtime files.
#[derive(Debug, Clone, Copy, PartialEq, Eq, Structural)]
pub enum RootProblem {
    Missing,
    Empty,
}

pub open spec fn root_problem(exists: bool, entries: Option<usize>) -> Option<RootProblem> {
    if !exists {
        Some(RootProblem::Missing)
    } else if entries == Some(0usize) {
        Some(RootProblem::Empty)
    } else {
        None
    }
}

/// What is wrong with a directory of runtime files. `entries` is how many files it holds, if that
/// can be told.
pub fn runtime_root_problem(exists: bool, entries: Option<usize>) -> (r: Option<RootProblem>)
    ensures
        r == root_problem(exists, entries),
{
    if !exists {
        return Some(RootProblem::Missing);
    }
    match entries {
        Some(count) => if count == 0 {
            Some(RootProblem::Empty)
        } else {
            None
        },
        None => None,
    }
}

/// A directory of runtime files.
#[derive(Debug)]
pub struct RuntimeRoot {
    pub path: String,
    /// Where it points to, if it is a link.
    pub link: Option<String>,
    pub exists: bool,
    /// How many files it holds, if that can be told.
    pub entries: Option<usize>,
}

/// The lines about a directory of runtime files.
pub open spec fn root_lines(kind: Seq<char>, root: RuntimeRoot) -> Seq<Seq<CellView>> {
    let about = "Runtime "@ + kind;
    seq![seq![plain_text(about + ": "@ + root.path@)]] + (match root.link {
        Some(target) => seq![seq![yellow_text(about + " is symlinked to: "@ + target@)]],
        None => seq![],
    }) + (match root_problem(root.exists, root.entries) {
        Some(RootProblem::Missing) => seq![
            seq![yellow_text(about + " does not exist: "@ + root.path@)],
        ],
        Some(RootProblem::Empty) => seq![seq![yellow_text(about + " is empty: "@ + root.path@)]],
        None => seq![],
    })
}

fn join_three(a: &str, b: &str, c: &str) -> (r: String)
    ensures
        r@ == a@ + b@ + c@,
{
    let mut out = join(a, b);
    out.append(c);
    out
}

/// Reports on a directory of runtime files.
pub fn write_runtime_root_health(kind: &str, root: &RuntimeRoot) -> (r: Vec<Vec<Cell>>)
    ensures
        row_views(r@) == root_lines(kind@, *root),
{
    let about = join("Runtime ", kind);
    let mut rows: Vec<Vec<Cell>> = Vec::new();
    assert(row_views(rows@) =~= seq![]);
    let text = join_three(about.as_str(), ": ", root.path.as_str());
    push_row(&mut rows, row_of(Cell { text, color: Color::Plain }));
    if let Some(target) = &root.link {
        let text = join_three(about.as_str(), " is symlinked to: ", target.as_str());
        push_row(&mut rows, row_of(Cell { text, color: Color::Yellow }));
    }
    match runtime_root_problem(root.exists, root.entries) {
        Some(RootProblem::Missing) => {
            let text = join_three(about.as_str(), " does not exist: ", root.path.as_str());
            push_row(&mut rows, row_of(Cell { text, color: Color::Yellow }));
        },
        Some(RootProblem::Empty) => {
            let text = join_three(about.as_str(), " is empty: ", root.path.as_str());
            push_row(&mut rows, row_of(Cell { text, color: Color::Yellow }));
        },
        None => {},
    }
    assert(row_views(rows@) =~~= root_lines(kind@, *root));
    rows
}

/// A package that is in use.
#[derive(Debug)]
pub struct ActivePackage {
    pub kind: String,
    pub name: String,
    pub version: String,
}

/// The runtime files and packages in use.
#[derive(Debug)]
pub struct RuntimeHealth {
    pub generation: u64,
    pub overrides: Vec<RuntimeRoot>,
    pub bundled: Vec<RuntimeRoot>,
    pub packages: Vec<ActivePackage>,
}

pub open spec fn all_root_lines(kind: Seq<char>, roots: Seq<RuntimeRoot>) -> Seq<Seq<CellView>>
    decreases roots.len(),
{
    if roots.len() == 0 {
        seq![]
    } else {
        all_root_lines(kind, roots.drop_last()) + root_lines(kind, roots.last())
    }
}

pub open spec fn package_line(package: ActivePackage) -> Seq<CellView> {
    seq![plain_text("  "@ + package.kind@ + " "@ + package.name@ + " "@ + package.version@)]
}

pub open spec fn package_lines(packages: Seq<ActivePackage>) -> Seq<Seq<CellView>> {
    if packages.len() == 0 {
        seq![seq![plain_text("Active runtime packages: none"@)]]
    } else {
        seq![seq![plain_text("Active runtime packages:"@)]] + packages.map_values(
            |package: ActivePackage| package_line(package),
        )
    }
}

/// The lines about the files in use.
pub open spec fn general_lines(
    config_file: Option<String>,
    lang_file: Option<String>,
    log_file: Seq<char>,
    runtime: Result<RuntimeHealth, String>,
) -> Seq<Seq<CellView>> {
    seq![
        seq![plain_text(file_text("Config file"@, config_file))],
        seq![plain_text(file_text("Language file"@, lang_file))],
        seq![plain_text("Log file: "@ + log_file)],
    ] + (match runtime {
        Ok(runtime) => seq![
            seq![plain_text("Runtime generation: "@ + text::decimal(runtime.generation as nat))],
        ] + all_root_lines("override"@, runtime.overrides@) + all_root_lines(
            "bundled"@,
            runtime.bundled@,
        ) + package_lines(runtime.packages@),
        Err(error) => seq![
            seq![CellView { text: "Runtime state: "@ + error@, color: Color::Red }],
        ],
    })
}

fn push_roots(rows: &mut Vec<Vec<Cell>>, kind: &str, roots: &Vec<RuntimeRoot>)
    ensures
        row_views(final(rows)@) == row_views(old(rows)@) + all_root_lines(kind@, roots@),
{
    let ghost before = row_views(rows@);
    let mut i: usize = 0;
    assert(roots@.take(0) =~= seq![]);
    assert(before + all_root_lines(kind@, roots@.take(0)) =~= before);
    while i < roots.len()
        invariant
            i <= roots@.len(),
            row_views(rows@) == before + all_root_lines(kind@, roots@.take(i as int)),
        decreases roots@.len() - i,
    {
        assert(roots@.take(i + 1).drop_last() =~= roots@.take(i as int));
        let ghost so_far = all_root_lines(kind@, roots@.take(i as int));
        push_rows(rows, write_runtime_root_health(kind, &roots[i]));
        assert(before + so_far + root_lines(kind@, roots@[i as int]) =~= before + (so_far
            + root_lines(kind@, roots@[i as int])));
        i += 1;
    }
    assert(roots@.take(i as int) =~= roots@);
}

fn push_packages(rows: &mut Vec<Vec<Cell>>, packages: &Vec<ActivePackage>)
    ensures
        row_views(final(rows)@) == row_views(old(rows)@) + package_lines(packages@),
{
    let ghost before = row_views(rows@);
    if packages.len() == 0 {
        push_row(rows, row_of(plain_cell("Active runtime packages: none")));
        assert(row_views(rows@) =~= before + package_lines(packages@));
        return;
    }
    push_row(rows, row_of(plain_cell("Active runtime packages:")));
    let ghost head = row_views(rows@);
    let mut i: usize = 0;
    assert(head + packages@.take(0).map_values(|package: ActivePackage| package_line(package))
        =~= head);
    while i < packages.len()
        invariant
            i <= packages@.len(),
            row_views(rows@) == head + packages@.take(i as int).map_values(
                |package: ActivePackage| package_line(package),
            ),
        decreases packages@.len() - i,
    {
        let ghost so_far = row_views(rows@);
        let mut text = join_three("  ", packages[i].kind.as_str(), " ");
        text.append(packages[i].name.as_str());
        text.append(" ");
        text.append(packages[i].version.as_str());
        push_row(rows, row_of(Cell { text, color: Color::Plain }));
        assert(head + packages@.take(i + 1).map_values(
            |package: ActivePackage| package_line(package),
        ) =~= so_far.push(package_line(packages@[i as int])));
        i += 1;
    }
    assert(packages@.take(i as int) =~= packages@);
    assert(row_views(rows@) =~= before + package_lines(packages@));
}

/// Reports on the files in use.
pub fn general(
    config_file: &Option<String>,
    lang_file: &Option<String>,
    log_file: &str,
    runtime: &Result<RuntimeHealth, String>,
) -> (r: Vec<Vec<Cell>>)
    ensures
        row_views(r@) == general_lines(*config_file, *lang_file, log_file@, *runtime),
{
    let mut rows: Vec<Vec<Cell>> = Vec::new();
    assert(row_views(rows@) =~= seq![]);
    let config = file_line("Config file", config_file);
    push_row(&mut rows, row_of(Cell { text: config, color: Color::Plain }));
    let lang = file_line("Language file", lang_file);
    push_row(&mut rows, row_of(Cell { text: lang, color: Color::Plain }));
    let log = join("Log file: ", log_file);
    push_row(&mut rows, row_of(Cell { text: log, color: Color::Plain }));
    match runtime {
        Ok(runtime) => {
            let number = decimal_text(runtime.generation);
            let generation = join("Runtime generation: ", number.as_str());
            push_row(&mut rows, row_of(Cell { text: generation, color: Color::Plain }));
            push_roots(&mut rows, "override", &runtime.overrides);
            push_roots(&mut rows, "bundled", &runtime.bundled);
            push_packages(&mut rows, &runtime.packages);
        },
        Err(error) => {
            let text = join("Runtime state: ", error.as_str());
            push_row(&mut rows, row_of(Cell { text, color: Color::Red }));
        },
    }
    assert(row_views(rows@) =~= general_lines(*config_file, *lang_file, log_file@, *runtime));
    rows
}

/// What is said of a configuration of languages that could not be read.
pub open spec fn language_config_lines(error: Seq<char>) -> Seq<Seq<CellView>> {
    seq![
        seq![
            CellView { text: "Error parsing user language config"@, color: Color::Red },
            plain_text(": "@ + error),
        ],
        seq![yellow_text("Using default language config"@)],
    ]
}

/// The configuration of languages that is reported on: the user's, or the default if that could
/// not be read, which is then said among the errors.
pub fn language_config<L>(user: Result<L, String>, default: L) -> (r: (L, Vec<Vec<Cell>>))
    ensures
        match user {
            Ok(config) => r.0 == config && r.1@.len() == 0,
            Err(error) => r.0 == default && row_views(r.1@) == language_config_lines(error@),
        },
{
    let mut rows: Vec<Vec<Cell>> = Vec::new();
    match user {
        Ok(config) => (config, rows),
        Err(error) => {
            assert(row_views(rows@) =~= seq![]);
            let mut problem = row_of(red_cell("Error parsing user language config"));
            let text = join(": ", error.as_str());
            push_cell(&mut problem, Cell { text, color: Color::Plain });
            push_row(&mut rows, problem);
            push_row(&mut rows, row_of(yellow_cell("Using default language config")));
            assert(row_views(rows@) =~~= language_config_lines(error@));
            (default, rows)
        },
    }
}

/// The lines about the clipboard. The provider is that of the configuration, or of the default if
/// there is no configuration.
pub open spec fn clipboard_lines(
    configured: Result<String, ConfigLoadError>,
    default_provider: Seq<char>,
) -> Seq<Seq<CellView>> {
    match configured {
        Ok(name) => provider_lines(name@),
        Err(error) => if error.is_not_found() {
            provider_lines(default_provider)
        } else {
            seq![
                seq![CellView { text: "Configuration file malformed"@, color: Color::Red }],
                seq![plain_text(error.spec_message())],
            ]
        },
    }
}

pub open spec fn provider_lines(name: Seq<char>) -> Seq<Seq<CellView>> {
    if name == "none"@ {
        seq![
            seq![CellView { text: "System clipboard provider: Not installed"@, color: Color::Red }],
            seq![
                plain_text("    "@),
                CellView {
                    text: "For troubleshooting system clipboard issues, refer"@,
                    color: Color::Red,
                },
            ],
            seq![
                plain_text("    "@),
                CellView {
                    text: "https://github.com/helix-editor/helix/wiki/Troubleshooting#copypaste-fromto-system-clipboard-not-working"@,
                    color: Color::RedLink,
                },
            ],
        ]
    } else {
        seq![seq![plain_text("System clipboard provider: "@ + name)]]
    }
}

fn red_cell(t: &str) -> (r: Cell)
    ensures
        r@ == (CellView { text: t@, color: Color::Red }),
{
    Cell { text: t.to_owned(), color: Color::Red }
}

fn provider(name: &str) -> (r: Vec<Vec<Cell>>)
    ensures
        row_views(r@) == provider_lines(name@),
{
    let mut rows: Vec<Vec<Cell>> = Vec::new();
    assert(row_views(rows@) =~= seq![]);
    if same_text(name, "none") {
        push_row(&mut rows, row_of(red_cell("System clipboard provider: Not installed")));
        let mut refer = row_of(plain_cell("    "));
        push_cell(&mut refer, red_cell("For troubleshooting system clipboard issues, refer"));
        push_row(&mut rows, refer);
        let mut page = row_of(plain_cell("    "));
        push_cell(
            &mut page,
            Cell {
                text: "https://github.com/helix-editor/helix/wiki/Troubleshooting#copypaste-fromto-system-clipboard-not-working".to_owned(),
                color: Color::RedLink,
            },
        );
        push_row(&mut rows, page);
    } else {
        let text = join("System clipboard provider: ", name);
        push_row(&mut rows, row_of(Cell { text, color: Color::Plain }));
    }
    assert(row_views(rows@) =~~= provider_lines(name@));
    rows
}

/// Reports on the clipboard.
pub fn clipboard(configured: &Result<String, ConfigLoadError>, default_provider: &str) -> (r: Vec<
    Vec<Cell>,
>)
    ensures
        row_views(r@) == clipboard_lines(*configured, default_provider@),
{
    match configured {
        Ok(name) => provider(name.as_str()),
        Err(error) => if error.not_found() {
            provider(default_provider)
        } else {
            let mut rows: Vec<Vec<Cell>> = Vec::new();
            assert(row_views(rows@) =~= seq![]);
            push_row(&mut rows, row_of(red_cell("Configuration file malformed")));
            push_row(&mut rows, row_of(plain_cell(error.message())));
            assert(row_views(rows@) =~~= clipboard_lines(*configured, default_provider@));
            rows
        },
    }
}

/// A part of the report.
#[derive(Debug)]
pub enum HealthSection {
    General,
    Clipboard,
    EmptyLine,
    LanguagesSelection,
    LanguagesAll,
    Language(String),
}

/// The parts of the report that was asked for.
pub open spec fn report_sections(arg: Option<String>) -> Seq<HealthSection> {
    match arg {
        None => seq![
            HealthSection::General,
            HealthSection::Clipboard,
            HealthSection::EmptyLine,
            HealthSection::LanguagesSelection,
        ],
        Some(arg) => if arg@ == "languages"@ {
            seq![HealthSection::LanguagesSelection]
        } else if arg@ == "all-languages"@ {
            seq![HealthSection::LanguagesAll]
        } else if arg@ == "clipboard"@ {
            seq![HealthSection::Clipboard]
        } else if arg@ == "all"@ {
            seq![
                HealthSection::General,
                HealthSection::Clipboard,
                HealthSection::EmptyLine,
                HealthSection::LanguagesAll,
            ]
        } else {
            seq![HealthSection::Language(arg)]
        },
    }
}

/// The parts of the report that was asked for: a part by its name, everything, or a language.
pub fn print_health(health_arg: Option<String>) -> (r: Vec<HealthSection>)
    ensures
        r@ == report_sections(health_arg),
{
    let mut sections: Vec<HealthSection> = Vec::new();
    match health_arg {
        None => {
            sections.push(HealthSection::General);
            sections.push(HealthSection::Clipboard);
            sections.push(HealthSection::EmptyLine);
            sections.push(HealthSection::LanguagesSelection);
        },
        Some(arg) => {
            if same_text(arg.as_str(), "languages") {
                sections.push(HealthSection::LanguagesSelection);
            } else if same_text(arg.as_str(), "all-languages") {
                sections.push(HealthSection::LanguagesAll);
            } else if same_text(arg.as_str(), "clipboard") {
                sections.push(HealthSection::Clipboard);
            } else if same_text(arg.as_str(), "all") {
                sections.push(HealthSection::General);
                sections.push(HealthSection::Clipboard);
                sections.push(HealthSection::EmptyLine);
                sections.push(HealthSection::LanguagesAll);
            } else {
                sections.push(HealthSection::Language(arg));
            }
        },
    }
    assert(sections@ =~= report_sections(health_arg));
    sections
}

/// Tools of servers that are configured are listed, in order, and no others.
pub proof fn law_configured_servers_are_listed(servers: Seq<ServerTool>, server: ServerTool)
    ensures
        configured(Seq::<ServerTool>::empty()).len() == 0,
        server.configured ==> configured(servers.push(server)) == configured(servers).push(
            server.tool,
        ),
        !server.configured ==> configured(servers.push(server)) == configured(servers),
{
    assert(servers.push(server).drop_last() =~= servers);
}

/// A language takes a row for itself and its first server, and one for each further server, which
/// names nothing but that.
pub proof fn law_each_server_has_a_row(language: LanguageHealth, width: nat, i: int)
    requires
        1 <= i < configured(language.servers@).len(),
    ensures
        ({
            let rows = language_rows(language, width);
            let servers = configured(language.servers@);
            &&& rows.len() == servers.len()
            &&& rows[0][0] == plain(language.language_id@, width)
            &&& rows[0][1] == tool_cell(servers[0], width)
            &&& rows[0].len() == 4 + language.features@.len()
            &&& rows[i].len() == 2
            &&& rows[i][0] == plain(""@, width)
            &&& rows[i][1] == tool_cell(servers[i], width)
        }),
{
    let servers = configured(language.servers@);
    assert(servers.drop_first()[i - 1] == servers[i]);
}

/// What was found is marked in green and what was not in red; what is not there at all is yellow.
pub proof fn law_marks_tell_what_was_found(tool: Tool, width: nat)
    ensures
        tool.found ==> tool_cell(tool, width).color == Color::Green,
        !tool.found ==> tool_cell(tool, width).color == Color::Red,
        optional_tool_cell(Some(tool), width) == tool_cell(tool, width),
        optional_tool_cell(None, width).color == Color::Yellow,
        feature_cell(true, width).color == Color::Green,
        feature_cell(false, width).color == Color::Red,
        mark(true).color == Color::Green,
        mark(false).color == Color::Red,
{
}

/// Cells are filled up with blanks behind their text.
pub proof fn law_cells_are_filled_up(t: Seq<char>, width: nat, i: int)
    requires
        0 <= i < padded(t, width).len(),
    ensures
        padded(t, width).len() == if t.len() < width {
            width
        } else {
            t.len()
        },
        i < t.len() ==> padded(t, width)[i] == t[i],
        i >= t.len() ==> padded(t, width)[i] == ' ',
{
}

/// The languages that are selected are listed, in order, each with all its rows.
pub proof fn law_selected_languages_are_listed(
    languages: Seq<(String, LanguageHealth)>,
    language: (String, LanguageHealth),
    selection: Option<Vec<String>>,
    width: nat,
)
    ensures
        listed_rows(Seq::<(String, LanguageHealth)>::empty(), selection, width).len() == 0,
        selection is None ==> listed_rows(languages.push(language), selection, width)
            == listed_rows(languages, selection, width) + language_rows(language.1, width),
        selection matches Some(ids) ==> {
            let named = exists|i: int|
                0 <= i < ids@.len() && (#[trigger] ids@[i])@ == language.1.language_id@;
            &&& named ==> listed_rows(languages.push(language), selection, width) == listed_rows(
                languages,
                selection,
                width,
            ) + language_rows(language.1, width)
            &&& !named ==> listed_rows(languages.push(language), selection, width) == listed_rows(
                languages,
                selection,
                width,
            )
        },
{
    assert(languages.push(language).drop_last() =~= languages);
}

/// A language is found by its name, the first that has it.
pub proof fn law_languages_are_found_by_name(ids: Seq<String>, wanted: Seq<char>)
    ensures
        match language_index(ids, wanted) {
            Some(i) => 0 <= i < ids.len() && ids[i]@ == wanted && forall|j: int|
                0 <= j < i ==> (#[trigger] ids[j])@ != wanted,
            None => forall|i: int| 0 <= i < ids.len() ==> (#[trigger] ids[i])@ != wanted,
        },
    decreases ids.len(),
{
    if ids.len() > 0 {
        let rest = ids.drop_first();
        law_languages_are_found_by_name(rest, wanted);
        assert forall|i: int| 0 < i < ids.len() implies #[trigger] ids[i] == rest[i - 1] by {}
    }
}

/// What is suggested are the languages that begin with the same letter, in order.
pub proof fn law_suggestions_begin_with_the_letter(ids: Seq<String>, id: String, c: char)
    ensures
        beginning_with(Seq::<String>::empty(), c).len() == 0,
        id@.len() > 0 && id@[0] == c ==> beginning_with(ids.push(id), c) == beginning_with(
            ids,
            c,
        ).push(id@),
        id@.len() == 0 || id@[0] != c ==> beginning_with(ids.push(id), c) == beginning_with(ids, c),
{
    assert(ids.push(id).drop_last() =~= ids);
}

/// Texts are listed with a comma and a blank between any two.
pub proof fn law_texts_are_listed_with_commas(texts: Seq<Seq<char>>, t: Seq<char>)
    ensures
        with_commas(Seq::<Seq<char>>::empty()).len() == 0,
        with_commas(seq![t]) == t,
        texts.len() > 0 ==> with_commas(texts.push(t)) == with_commas(texts) + ", "@ + t,
{
    assert(texts.push(t).drop_last() =~= texts);
}

/// A directory is told to be missing or empty if it is, and else nothing is told.
pub proof fn law_missing_directories_are_told(entries: usize)
    ensures
        root_problem(false, Some(entries)) == Some(RootProblem::Missing),
        root_problem(true, Some(0)) == Some(RootProblem::Empty),
        entries > 0 ==> root_problem(true, Some(entries)) is None,
        root_problem(true, None) is None,
{
}

/// A configuration that is not there leaves the default provider; one that is broken is told.
pub proof fn law_broken_configurations_are_told(
    reason: String,
    default_provider: Seq<char>,
    name: String,
)
    ensures
        clipboard_lines(
            Err(ConfigLoadError::Error { not_found: true, reason }),
            default_provider,
        ) == provider_lines(default_provider),
        clipboard_lines(Ok(name), default_provider) == provider_lines(name@),
        clipboard_lines(Err(ConfigLoadError::BadConfig(reason)), default_provider).len() == 2,
        clipboard_lines(Err(ConfigLoadError::BadConfig(reason)), default_provider)[1][0].text
            == reason@,
{
}

/// Every tool of a kind has a line of its own, in order, marked by whether it was found and saying
/// where; that there is none is said.
pub proof fn law_every_tool_has_a_line(protocol: Seq<char>, probes: Seq<Probe>, i: int)
    requires
        0 <= i < probes.len(),
    ensures
        ({
            let lines = protocols_report(protocol, probes);
            &&& lines.len() == probes.len() + 1
            &&& lines[0][0].text == "Configured "@ + protocol + "s:"@
            &&& lines[i + 1].len() == 4
            &&& lines[i + 1][1] == mark(probes[i].resolved matches Ok(Some(_)))
            &&& lines[i + 1][2].text == " "@ + probes[i].name@ + ": "@
            &&& lines[i + 1][3] == diagnosis(probes[i].command@, probes[i].resolved)
        }),
        protocols_report(protocol, seq![]).len() == 1,
        protocols_report(protocol, seq![])[0][1].text == " None"@,
        protocol_report(protocol, None).len() == 1,
        protocol_report(protocol, Some(probes[i]))[1][1] == mark(
            probes[i].resolved matches Ok(Some(_)),
        ),
        protocol_report(protocol, Some(probes[i]))[1][3] == diagnosis(
            probes[i].command@,
            probes[i].resolved,
        ),
{
}

/// A tool that was found is named with where it comes from, in green; one that was not, and a
/// failure, in red.
pub proof fn law_tools_are_named_where_they_are(
    command: Seq<char>,
    found: Resolved,
    error: String,
)
    ensures
        diagnosis(command, Ok(Some(found))).color == Color::Green,
        text::starts_with(diagnosis(command, Ok(Some(found))).text, found.program@),
        diagnosis(command, Ok(None)).color == Color::Red,
        diagnosis(command, Err(error)) == (CellView { text: error@, color: Color::Red }),
{
    let shown = diagnosis(command, Ok(Some(found))).text;
    assert(shown.take(found.program@.len() as int) =~= found.program@);
}

/// The report on a language tells its servers, its debugger, its formatter, its parser and each of
/// its queries, in this order.
pub proof fn law_reports_tell_every_part_in_order(probe: LanguageProbe)
    ensures
        ({
            let lines = language_lines(probe);
            let servers = protocols_report("language server"@, probe.servers@);
            let debugger = protocol_report("debug adapter"@, probe.debugger);
            let formatter = protocol_report("formatter"@, probe.formatter);
            let n = (servers.len() + debugger.len() + formatter.len()) as int;
            &&& lines.len() == n + 6
            &&& lines.take(servers.len() as int) == servers
            &&& lines[n] == parser_report(probe.parser)
            &&& lines[n + 1] == feature_report(TsFeature::Highlight, probe.highlight)
            &&& lines[n + 2] == feature_report(TsFeature::TextObject, probe.text_object)
            &&& lines[n + 3] == feature_report(TsFeature::AutoIndent, probe.auto_indent)
            &&& lines[n + 4] == feature_report(TsFeature::Tags, probe.tags)
            &&& lines[n + 5] == feature_report(TsFeature::RainbowBracket, probe.rainbow_bracket)
        }),
        parser_report(true)[1] == mark(true),
        parser_report(false)[1].color == Color::Yellow,
{
    let servers = protocols_report("language server"@, probe.servers@);
    assert(language_lines(probe).take(servers.len() as int) =~= servers);
}

/// A root is told with its path, then where it leads if it is a link, then what is wrong with it.
pub proof fn law_roots_are_told_with_their_problems(kind: Seq<char>, root: RuntimeRoot)
    ensures
        ({
            let lines = root_lines(kind, root);
            &&& text::ends_with(lines[0][0].text, root.path@)
            &&& root.link matches Some(target) ==> text::ends_with(lines[1][0].text, target@)
            &&& lines.len() == 1 + (if root.link is Some {
                1int
            } else {
                0
            }) + (if !root.exists || root.entries == Some(0usize) {
                1int
            } else {
                0
            })
        }),
{
    let about = "Runtime "@ + kind;
    let lines = root_lines(kind, root);
    let first = about + ": "@ + root.path@;
    assert(lines[0][0].text == first);
    assert(first.skip(first.len() - root.path@.len()) =~= root.path@);
    if root.link is Some {
        let target = root.link->0@;
        let second = about + " is symlinked to: "@ + target;
        assert(lines[1][0].text == second);
        assert(second.skip(second.len() - target.len()) =~= target);
    }
}

/// Roots and packages are told in order, each with all its lines.
pub proof fn law_roots_and_packages_are_told_in_order(
    kind: Seq<char>,
    roots: Seq<RuntimeRoot>,
    root: RuntimeRoot,
    packages: Seq<ActivePackage>,
    i: int,
)
    requires
        0 <= i < packages.len(),
    ensures
        all_root_lines(kind, Seq::<RuntimeRoot>::empty()).len() == 0,
        all_root_lines(kind, roots.push(root)) == all_root_lines(kind, roots) + root_lines(
            kind,
            root,
        ),
        package_lines(packages).len() == packages.len() + 1,
        package_lines(packages)[i + 1] == package_line(packages[i]),
        package_lines(seq![]).len() == 1,
{
    assert(roots.push(root).drop_last() =~= roots);
}

/// What is reported is what was asked for: everything, or one of the sections, or the language of
/// that name.
pub proof fn law_the_asked_sections_are_reported(arg: String)
    ensures
        arg@ == "languages"@ ==> report_sections(Some(arg)) == seq![
            HealthSection::LanguagesSelection,
        ],
        arg@ == "clipboard"@ ==> report_sections(Some(arg)) == seq![HealthSection::Clipboard],
        arg@ != "languages"@ && arg@ != "all-languages"@ && arg@ != "clipboard"@ && arg@ != "all"@
            ==> report_sections(Some(arg)) == seq![HealthSection::Language(arg)],
        report_sections(None)[0] == HealthSection::General,
        report_sections(None)[1] == HealthSection::Clipboard,
        report_sections(None).last() == HealthSection::LanguagesSelection,
        arg@ == "all-languages"@ ==> report_sections(Some(arg)) == seq![
            HealthSection::LanguagesAll,
        ],
        arg@ == "all"@ ==> report_sections(Some(arg)).last() == HealthSection::LanguagesAll
            && report_sections(Some(arg)).drop_last() == report_sections(None).drop_last(),
{
    reveal_strlit("languages");
    reveal_strlit("all-languages");
    reveal_strlit("clipboard");
    reveal_strlit("all");
    assert("languages"@.len() == 9 && "all-languages"@.len() == 13 && "clipboard"@.len() == 9
        && "all"@.len() == 3);
    assert("languages"@[0] == 'l' && "clipboard"@[0] == 'c');
    if arg@ == "all"@ {
        assert(report_sections(Some(arg)).drop_last() =~= report_sections(None).drop_last());
    }
}

/// Who asks for a language that is not known is told so, and which ones were perhaps meant.
pub proof fn law_unknown_languages_are_told(wanted: Seq<char>, suggestions: Seq<Seq<char>>)
    ensures
        unknown_language_lines(wanted, suggestions)[0][0].text == "Language '"@ + wanted
            + "' not found"@,
        suggestions.len() == 0 ==> unknown_language_lines(wanted, suggestions).len() == 1,
        suggestions.len() > 0 ==> unknown_language_lines(wanted, suggestions)[1][1].text
            == with_commas(suggestions),
{
}

/// The first lines name the files in use, whether they are set or the default; what is wrong with
/// the runtime comes last, in red.
pub proof fn law_files_in_use_are_named(
    config_file: Option<String>,
    lang_file: Option<String>,
    log_file: Seq<char>,
    runtime: Result<RuntimeHealth, String>,
)
    ensures
        ({
            let lines = general_lines(config_file, lang_file, log_file, runtime);
            &&& config_file matches Some(path) ==> text::ends_with(lines[0][0].text, path@)
            &&& lang_file matches Some(path) ==> text::ends_with(lines[1][0].text, path@)
            &&& text::ends_with(lines[2][0].text, log_file)
            &&& config_file is None ==> text::ends_with(lines[0][0].text, "default"@)
            &&& lang_file is None ==> text::ends_with(lines[1][0].text, "default"@)
            &&& runtime matches Err(error) ==> lines.len() == 4 && lines[3][0].color == Color::Red
                && text::ends_with(lines[3][0].text, error@)
            &&& runtime matches Ok(runtime) ==> text::ends_with(
                lines[3][0].text,
                text::decimal(runtime.generation as nat),
            ) && lines.len() == 4 + all_root_lines("override"@, runtime.overrides@).len()
                + all_root_lines("bundled"@, runtime.bundled@).len() + package_lines(
                runtime.packages@,
            ).len()
        }),
{
    reveal_strlit(": default");
    reveal_strlit("default");
    reveal_strlit(": ");
    let lines = general_lines(config_file, lang_file, log_file, runtime);
    lemma_ends_with("Log file: "@, log_file);
    lemma_file_text("Config file"@, config_file);
    lemma_file_text("Language file"@, lang_file);
    match runtime {
        Ok(runtime) => {
            lemma_ends_with(
                "Runtime generation: "@,
                text::decimal(runtime.generation as nat),
            );
        },
        Err(error) => {
            lemma_ends_with("Runtime state: "@, error@);
        },
    }
}

proof fn lemma_ends_with(head: Seq<char>, tail: Seq<char>)
    ensures
        text::ends_with(head + tail, tail),
{
    assert((head + tail).skip(head.len() as int) =~= tail);
}

proof fn lemma_file_text(label: Seq<char>, path: Option<String>)
    ensures
        path is Some ==> text::ends_with(file_text(label, path), path->0@),
        path is None ==> text::ends_with(file_text(label, path), "default"@),
{
    reveal_strlit(": default");
    reveal_strlit("default");
    match path {
        Some(path) => {
            lemma_ends_with(label + ": "@, path@);
        },
        None => {
            assert(": default"@ =~= seq![':', ' '] + "default"@);
            assert(label + ": default"@ =~= (label + seq![':', ' ']) + "default"@);
            lemma_ends_with(label + seq![':', ' '], "default"@);
        },
    }
}

/// Languages are listed below the headings, sorted by their names, none lost and none added.
pub proof fn law_languages_are_listed_below_the_headings(
    languages: Seq<LanguageHealth>,
    selection: Option<Vec<String>>,
    width: nat,
    i: int,
)
    ensures
        language_table(languages, selection, width)[0] == heading_row(width),
        language_table(languages, selection, width).skip(1) == listed_rows(
            sorting::sorted(by_id(languages)),
            selection,
            width,
        ),
        by_id(languages).len() == languages.len(),
        0 <= i < languages.len() ==> by_id(languages)[i].0 == languages[i].language_id
            && by_id(languages)[i].1 == languages[i],
        selection is None ==> is_selected(selection, languages[i].language_id@),
{
    assert(language_table(languages, selection, width).skip(1) =~= listed_rows(
        sorting::sorted(by_id(languages)),
        selection,
        width,
    ));
}

/// Where a program comes from is told: its package with its version, or the directory it is in.
pub proof fn law_origins_are_told(name: String, version: String, root: String)
    ensures
        text::ends_with(origin_text(Origin::Managed { name, version }), version@),
        text::ends_with(origin_text(Origin::RuntimeOverride { root }), root@),
        text::ends_with(origin_text(Origin::BundledRuntime { root }), root@),
        origin_text(Origin::RuntimeOverride { root }) != origin_text(
            Origin::BundledRuntime { root },
        ),
{
    lemma_ends_with("pkg "@ + name@ + " "@, version@);
    lemma_ends_with("runtime override "@, root@);
    lemma_ends_with("bundled runtime "@, root@);
    reveal_strlit("runtime override ");
    reveal_strlit("bundled runtime ");
    assert(("runtime override "@ + root@)[0] == 'r');
    assert(("bundled runtime "@ + root@)[0] == 'b');
}

/// A language without servers has one row, which says so.
pub proof fn law_languages_without_servers_have_one_row(language: LanguageHealth, width: nat)
    requires
        configured(language.servers@).len() == 0,
    ensures
        language_rows(language, width).len() == 1,
        language_rows(language, width)[0][0] == plain(language.language_id@, width),
        language_rows(language, width)[0][1] == optional_tool_cell(None, width),
{
}

} // verus!
