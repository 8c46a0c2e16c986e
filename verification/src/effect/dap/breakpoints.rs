//! Breakpoints and how adapters and people change them.

use vstd::prelude::*;

use crate::effect::dap::copy_text;
use crate::paths;
use crate::paths::{copy_path, same_path};
use crate::text::same_text;

verus! {

/// A place at which a program is to stop.
#[derive(Debug)]
pub struct Breakpoint {
    pub id: Option<usize>,
    pub verified: bool,
    pub message: Option<String>,
    /// The line, counted from zero.
    pub line: usize,
    pub column: Option<usize>,
    pub condition: Option<String>,
    pub log_message: Option<String>,
}

/// The breakpoints of a file.
#[derive(Debug)]
pub struct FileBreakpoints {
    /// The components of the path.
    pub path: Vec<String>,
    pub breakpoints: Vec<Breakpoint>,
}

/// What [`FileBreakpoints`] say.
pub struct FileView {
    pub path: Seq<Seq<char>>,
    pub breakpoints: Seq<Breakpoint>,
}

impl View for FileBreakpoints {
    type V = FileView;

    open spec fn view(&self) -> FileView {
        FileView { path: paths::parts(self.path@), breakpoints: self.breakpoints@ }
    }
}

pub open spec fn file_views(files: Seq<FileBreakpoints>) -> Seq<FileView> {
    files.map_values(|file: FileBreakpoints| file@)
}

/// A breakpoint as an adapter gives it.
#[derive(Debug)]
pub struct AdapterBreakpoint {
    pub id: Option<usize>,
    pub verified: bool,
    pub message: Option<String>,
    /// The components of the path of the file.
    pub path: Option<Vec<String>>,
    /// The line, counted from one.
    pub line: Option<usize>,
    pub column: Option<usize>,
}

/// What has happened to a breakpoint.
#[derive(Debug, Clone, Copy, PartialEq, Eq, Structural)]
pub enum BreakpointReason {
    New,
    Changed,
    Removed,
    Unknown,
}

/// What a reason that an adapter gives means.
pub fn breakpoint_reason(reason: &str) -> (r: BreakpointReason)
    ensures
        r == if reason@ == "new"@ {
            BreakpointReason::New
        } else if reason@ == "changed"@ {
            BreakpointReason::Changed
        } else if reason@ == "removed"@ {
            BreakpointReason::Removed
        } else {
            BreakpointReason::Unknown
        },
{
    if same_text(reason, "new") {
        BreakpointReason::New
    } else if same_text(reason, "changed") {
        BreakpointReason::Changed
    } else if same_text(reason, "removed") {
        BreakpointReason::Removed
    } else {
        BreakpointReason::Unknown
    }
}

pub open spec fn minus_one(line: usize) -> usize {
    if line > 0 {
        (line - 1) as usize
    } else {
        0
    }
}

/// Where the breakpoints of a file are.
pub open spec fn file_index(files: Seq<FileView>, path: Seq<Seq<char>>) -> Option<int>
    decreases files.len(),
{
    if files.len() == 0 {
        None
    } else if files[0].path == path {
        Some(0int)
    } else {
        match file_index(files.drop_first(), path) {
            Some(i) => Some(i + 1),
            None => None,
        }
    }
}

pub proof fn lemma_file_index(files: Seq<FileView>, path: Seq<Seq<char>>)
    ensures
        match file_index(files, path) {
            Some(i) => 0 <= i < files.len() && files[i].path == path,
            None => forall|i: int| 0 <= i < files.len() ==> (#[trigger] files[i]).path != path,
        },
    decreases files.len(),
{
    if files.len() > 0 {
        lemma_file_index(files.drop_first(), path);
        assert forall|i: int| 0 < i < files.len() implies #[trigger] files[i]
            == files.drop_first()[i - 1] by {}
    }
}

pub fn find_file(files: &Vec<FileBreakpoints>, path: &Vec<String>) -> (r: Option<usize>)
    ensures
        match r {
            Some(i) => i < files@.len() && file_index(file_views(files@), paths::parts(path@))
                == Some(i as int),
            None => file_index(file_views(files@), paths::parts(path@)) is None,
        },
{
    let mut i: usize = 0;
    let ghost views = file_views(files@);
    assert(views.skip(0) =~= views);
    while i < files.len()
        invariant
            i <= files@.len(),
            views == file_views(files@),
            match file_index(views.skip(i as int), paths::parts(path@)) {
                Some(k) => file_index(views, paths::parts(path@)) == Some(k + i),
                None => file_index(views, paths::parts(path@)) is None,
            },
        decreases files@.len() - i,
    {
        assert(views.skip(i as int).drop_first() =~= views.skip(i + 1));
        if same_path(&files[i].path, path) {
            return Some(i);
        }
        i += 1;
    }
    None
}

/// The breakpoints of a file, which has none yet if it is new.
pub open spec fn with_breakpoints(
    files: Seq<FileView>,
    path: Seq<Seq<char>>,
    change: spec_fn(Seq<Breakpoint>) -> Seq<Breakpoint>,
) -> Seq<FileView> {
    match file_index(files, path) {
        Some(i) => files.update(i, FileView { path, breakpoints: change(files[i].breakpoints) }),
        None => files.push(FileView { path, breakpoints: change(seq![]) }),
    }
}

pub open spec fn new_breakpoint(breakpoint: AdapterBreakpoint) -> Breakpoint {
    Breakpoint {
        id: breakpoint.id,
        verified: breakpoint.verified,
        message: breakpoint.message,
        line: minus_one(breakpoint.line->0),
        column: breakpoint.column,
        condition: None,
        log_message: None,
    }
}

/// A breakpoint after an adapter said more about it.
pub open spec fn changed_breakpoint(current: Breakpoint, news: AdapterBreakpoint) -> Breakpoint {
    Breakpoint {
        verified: news.verified,
        message: if news.message is Some {
            news.message
        } else {
            current.message
        },
        line: match news.line {
            Some(line) => minus_one(line),
            None => current.line,
        },
        column: if news.column is Some {
            news.column
        } else {
            current.column
        },
        ..current
    }
}

/// The first breakpoint with the id changes.
pub open spec fn with_changed(breakpoints: Seq<Breakpoint>, news: AdapterBreakpoint) -> Seq<Breakpoint>
    decreases breakpoints.len(),
{
    if breakpoints.len() == 0 {
        breakpoints
    } else if breakpoints[0].id == news.id {
        seq![changed_breakpoint(breakpoints[0], news)] + breakpoints.drop_first()
    } else {
        seq![breakpoints[0]] + with_changed(breakpoints.drop_first(), news)
    }
}

/// The breakpoints with other ids.
pub open spec fn without_id(breakpoints: Seq<Breakpoint>, id: Option<usize>) -> Seq<Breakpoint>
    decreases breakpoints.len(),
{
    if breakpoints.len() == 0 {
        seq![]
    } else {
        let rest = without_id(breakpoints.drop_last(), id);
        if breakpoints.last().id != id {
            rest.push(breakpoints.last())
        } else {
            rest
        }
    }
}

pub open spec fn map_files(
    files: Seq<FileView>,
    change: spec_fn(Seq<Breakpoint>) -> Seq<Breakpoint>,
) -> Seq<FileView> {
    files.map_values(
        |file: FileView| FileView { path: file.path, breakpoints: change(file.breakpoints) },
    )
}

/// What news about a breakpoint do to the breakpoints of all files.
pub open spec fn breakpoints_after(
    files: Seq<FileView>,
    reason: BreakpointReason,
    breakpoint: AdapterBreakpoint,
) -> Seq<FileView> {
    match reason {
        BreakpointReason::New => match (breakpoint.path, breakpoint.line) {
            (Some(path), Some(_)) => with_breakpoints(
                files,
                paths::parts(path@),
                |list: Seq<Breakpoint>| list.push(new_breakpoint(breakpoint)),
            ),
            _ => files,
        },
        BreakpointReason::Changed => map_files(
            files,
            |list: Seq<Breakpoint>| with_changed(list, breakpoint),
        ),
        BreakpointReason::Removed => map_files(
            files,
            |list: Seq<Breakpoint>| without_id(list, breakpoint.id),
        ),
        BreakpointReason::Unknown => files,
    }
}

fn same_id(a: Option<usize>, b: Option<usize>) -> (r: bool)
    ensures
        r == (a == b),
{
    match (a, b) {
        (Some(x), Some(y)) => x == y,
        (None, None) => true,
        _ => false,
    }
}

/// Where the first breakpoint with the id is.
fn change_first(breakpoints: &mut Vec<Breakpoint>, news: &AdapterBreakpoint)
    ensures
        final(breakpoints)@ == with_changed(old(breakpoints)@, *news),
{
    let ghost all = breakpoints@;
    let mut i: usize = 0;
    assert(all.skip(0) =~= all);
    assert(all.take(0) + with_changed(all, *news) =~= with_changed(all, *news));
    while i < breakpoints.len()
        invariant
            i <= breakpoints@.len(),
            breakpoints@ == all,
            all == old(breakpoints)@,
            with_changed(all, *news) == all.take(i as int) + with_changed(
                all.skip(i as int),
                *news,
            ),
        decreases breakpoints@.len() - i,
    {
        assert(all.skip(i as int).drop_first() =~= all.skip(i + 1));
        assert(all.skip(i as int)[0] == all[i as int]);
        if same_id(breakpoints[i].id, news.id) {
            let current = Breakpoint {
                id: breakpoints[i].id,
                verified: news.verified,
                message: if news.message.is_some() {
                    copy_text(&news.message)
                } else {
                    copy_text(&breakpoints[i].message)
                },
                line: match news.line {
                    Some(line) => line.saturating_sub(1),
                    None => breakpoints[i].line,
                },
                column: if news.column.is_some() {
                    news.column
                } else {
                    breakpoints[i].column
                },
                condition: copy_text(&breakpoints[i].condition),
                log_message: copy_text(&breakpoints[i].log_message),
            };
            breakpoints[i] = current;
            assert(breakpoints@ =~= all.take(i as int) + (seq![
                changed_breakpoint(all[i as int], *news),
            ] + all.skip(i + 1)));
            return;
        }
        assert(all.take(i as int) + (seq![all[i as int]] + with_changed(all.skip(i + 1), *news))
            =~= all.take(i + 1) + with_changed(all.skip(i + 1), *news));
        i += 1;
    }
    assert(all.take(i as int) =~= all);
    assert(all.skip(i as int) =~= seq![]);
    assert(all + Seq::<Breakpoint>::empty() =~= all);
}

fn remove_id(breakpoints: Vec<Breakpoint>, id: Option<usize>) -> (r: Vec<Breakpoint>)
    ensures
        r@ == without_id(breakpoints@, id),
{
    let mut out: Vec<Breakpoint> = Vec::new();
    let ghost all = breakpoints@;
    assert(all.take(0) =~= seq![]);
    for breakpoint in it: breakpoints
        invariant
            it.seq() == all,
            out@ == without_id(all.take(it.index()), id),
    {
        assert(all.take(it.index() + 1).drop_last() =~= all.take(it.index()));
        assert(all.take(it.index() + 1).last() == breakpoint);
        if !same_id(breakpoint.id, id) {
            out.push(breakpoint);
        }
    }
    assert(all.take(all.len() as int) =~= all);
    out
}

fn change_everywhere(files: &mut Vec<FileBreakpoints>, news: &AdapterBreakpoint)
    ensures
        file_views(final(files)@) == map_files(
            file_views(old(files)@),
            |list: Seq<Breakpoint>| with_changed(list, *news),
        ),
{
    let ghost before = files@;
    let mut i: usize = 0;
    while i < files.len()
        invariant
            i <= files@.len(),
            before == old(files)@,
            files@.len() == before.len(),
            forall|j: int| i <= j < files@.len() ==> #[trigger] files@[j] == before[j],
            forall|j: int|
                0 <= j < i ==> (#[trigger] files@[j])@ == (FileView {
                    path: paths::parts(before[j].path@),
                    breakpoints: with_changed(before[j].breakpoints@, *news),
                }),
        decreases files@.len() - i,
    {
        let file = &mut files[i];
        change_first(&mut file.breakpoints, news);
        i += 1;
    }
    assert(file_views(files@) =~= map_files(
        file_views(before),
        |list: Seq<Breakpoint>| with_changed(list, *news),
    ));
}

fn remove_everywhere(files: &mut Vec<FileBreakpoints>, id: Option<usize>)
    ensures
        file_views(final(files)@) == map_files(
            file_views(old(files)@),
            |list: Seq<Breakpoint>| without_id(list, id),
        ),
{
    let ghost before = files@;
    let mut i: usize = 0;
    while i < files.len()
        invariant
            i <= files@.len(),
            before == old(files)@,
            files@.len() == before.len(),
            forall|j: int| i <= j < files@.len() ==> #[trigger] files@[j] == before[j],
            forall|j: int|
                0 <= j < i ==> (#[trigger] files@[j])@ == (FileView {
                    path: paths::parts(before[j].path@),
                    breakpoints: without_id(before[j].breakpoints@, id),
                }),
        decreases files@.len() - i,
    {
        let file = &mut files[i];
        let mut list: Vec<Breakpoint> = Vec::new();
        std::mem::swap(&mut list, &mut file.breakpoints);
        file.breakpoints = remove_id(list, id);
        i += 1;
    }
    assert(file_views(files@) =~= map_files(
        file_views(before),
        |list: Seq<Breakpoint>| without_id(list, id),
    ));
}

fn add_breakpoint(files: &mut Vec<FileBreakpoints>, path: &Vec<String>, breakpoint: Breakpoint)
    ensures
        file_views(final(files)@) == with_breakpoints(
            file_views(old(files)@),
            paths::parts(path@),
            |list: Seq<Breakpoint>| list.push(breakpoint),
        ),
{
    let ghost before = file_views(files@);
    proof {
        lemma_file_index(before, paths::parts(path@));
    }
    match find_file(files, path) {
        Some(i) => {
            let file = &mut files[i];
            file.breakpoints.push(breakpoint);
        },
        None => {
            let mut breakpoints: Vec<Breakpoint> = Vec::new();
            breakpoints.push(breakpoint);
            assert(breakpoints@ =~= Seq::<Breakpoint>::empty().push(breakpoint));
            files.push(FileBreakpoints { path: copy_path(path), breakpoints });
        },
    }
    assert(file_views(files@) =~= with_breakpoints(
        before,
        paths::parts(path@),
        |list: Seq<Breakpoint>| list.push(breakpoint),
    ));
}

/// Takes in what an adapter says about a breakpoint. A new one needs a file and a line.
pub fn apply_breakpoint_event(
    files: &mut Vec<FileBreakpoints>,
    reason: BreakpointReason,
    breakpoint: AdapterBreakpoint,
)
    ensures
        file_views(final(files)@) == breakpoints_after(file_views(old(files)@), reason, breakpoint),
{
    match reason {
        BreakpointReason::New => {
            if let (Some(path), Some(line)) = (&breakpoint.path, breakpoint.line) {
                let fresh = Breakpoint {
                    id: breakpoint.id,
                    verified: breakpoint.verified,
                    message: copy_text(&breakpoint.message),
                    line: line.saturating_sub(1),
                    column: breakpoint.column,
                    condition: None,
                    log_message: None,
                };
                assert(fresh == new_breakpoint(breakpoint));
                add_breakpoint(files, path, fresh);
            }
        },
        BreakpointReason::Changed => change_everywhere(files, &breakpoint),
        BreakpointReason::Removed => remove_everywhere(files, breakpoint.id),
        BreakpointReason::Unknown => {},
    }
}

impl Breakpoint {
    pub fn copy(&self) -> (r: Breakpoint)
        ensures
            r == *self,
    {
        Breakpoint {
            id: self.id,
            verified: self.verified,
            message: copy_text(&self.message),
            line: self.line,
            column: self.column,
            condition: copy_text(&self.condition),
            log_message: copy_text(&self.log_message),
        }
    }
}

fn copy_breakpoints(list: &Vec<Breakpoint>) -> (r: Vec<Breakpoint>)
    ensures
        r@ == list@,
{
    let mut copies: Vec<Breakpoint> = Vec::new();
    let mut i: usize = 0;
    while i < list.len()
        invariant
            i <= list@.len(),
            copies@ =~= list@.take(i as int),
        decreases list@.len() - i,
    {
        copies.push(list[i].copy());
        i += 1;
    }
    assert(list@.take(i as int) =~= list@);
    copies
}

/// The breakpoints of a file; none if nothing is known of it.
pub open spec fn listed(files: Seq<FileView>, path: Seq<Seq<char>>) -> Seq<Breakpoint> {
    match file_index(files, path) {
        Some(i) => files[i].breakpoints,
        None => seq![],
    }
}

/// The breakpoints of a file; none if nothing is known of it.
pub fn breakpoints_in(files: &Vec<FileBreakpoints>, path: &Vec<String>) -> (r: Vec<Breakpoint>)
    ensures
        r@ == listed(file_views(files@), paths::parts(path@)),
{
    match find_file(files, path) {
        Some(i) => copy_breakpoints(&files[i].breakpoints),
        None => {
            let none: Vec<Breakpoint> = Vec::new();
            assert(none@ =~= seq![]);
            none
        },
    }
}

/// The breakpoints of all files.
pub fn copy_files(files: &Vec<FileBreakpoints>) -> (r: Vec<FileBreakpoints>)
    ensures
        file_views(r@) == file_views(files@),
{
    let mut copies: Vec<FileBreakpoints> = Vec::new();
    let mut i: usize = 0;
    while i < files.len()
        invariant
            i <= files@.len(),
            file_views(copies@) =~= file_views(files@.take(i as int)),
        decreases files@.len() - i,
    {
        let ghost before = copies@;
        let copy = FileBreakpoints {
            path: copy_path(&files[i].path),
            breakpoints: copy_breakpoints(&files[i].breakpoints),
        };
        assert(copy@ == files@[i as int]@);
        copies.push(copy);
        i += 1;
        assert(file_views(copies@) =~= file_views(before).push(copy@));
        assert(files@.take(i as int) =~= files@.take(i - 1).push(files@[i - 1]));
        assert(file_views(files@.take(i as int)) =~= file_views(files@.take(i - 1)).push(
            files@[i - 1]@,
        ));
    }
    assert(files@.take(i as int) =~= files@);
    copies
}

/// Every breakpoint waits for an adapter to confirm it again.
pub open spec fn all_unverified(breakpoints: Seq<Breakpoint>) -> Seq<Breakpoint> {
    breakpoints.map_values(|breakpoint: Breakpoint| Breakpoint { verified: false, ..breakpoint })
}

fn unverify_list(breakpoints: &mut Vec<Breakpoint>)
    ensures
        final(breakpoints)@ == all_unverified(old(breakpoints)@),
{
    let ghost before = breakpoints@;
    let mut i: usize = 0;
    while i < breakpoints.len()
        invariant
            i <= breakpoints@.len(),
            before == old(breakpoints)@,
            breakpoints@.len() == before.len(),
            forall|j: int| i <= j < before.len() ==> #[trigger] breakpoints@[j] == before[j],
            forall|j: int|
                0 <= j < i ==> #[trigger] breakpoints@[j] == (Breakpoint {
                    verified: false,
                    ..before[j]
                }),
        decreases breakpoints@.len() - i,
    {
        let breakpoint = &mut breakpoints[i];
        breakpoint.verified = false;
        i += 1;
    }
    assert(breakpoints@ =~= all_unverified(before));
}

/// No adapter is there any more to confirm breakpoints.
pub fn unverify_all(files: &mut Vec<FileBreakpoints>)
    ensures
        file_views(final(files)@) == map_files(
            file_views(old(files)@),
            |list: Seq<Breakpoint>| all_unverified(list),
        ),
{
    let ghost before = files@;
    let mut i: usize = 0;
    while i < files.len()
        invariant
            i <= files@.len(),
            before == old(files)@,
            files@.len() == before.len(),
            forall|j: int| i <= j < files@.len() ==> #[trigger] files@[j] == before[j],
            forall|j: int|
                0 <= j < i ==> (#[trigger] files@[j])@ == (FileView {
                    path: paths::parts(before[j].path@),
                    breakpoints: all_unverified(before[j].breakpoints@),
                }),
        decreases files@.len() - i,
    {
        let file = &mut files[i];
        unverify_list(&mut file.breakpoints);
        i += 1;
    }
    assert(file_views(files@) =~= map_files(
        file_views(before),
        |list: Seq<Breakpoint>| all_unverified(list),
    ));
}

/// Where the first breakpoint on a line is.
pub open spec fn on_line(breakpoints: Seq<Breakpoint>, line: usize) -> Option<int>
    decreases breakpoints.len(),
{
    if breakpoints.len() == 0 {
        None
    } else if breakpoints[0].line == line {
        Some(0int)
    } else {
        match on_line(breakpoints.drop_first(), line) {
            Some(i) => Some(i + 1),
            None => None,
        }
    }
}

proof fn lemma_on_line(breakpoints: Seq<Breakpoint>, line: usize)
    ensures
        match on_line(breakpoints, line) {
            Some(i) => 0 <= i < breakpoints.len() && breakpoints[i].line == line,
            None => forall|i: int|
                0 <= i < breakpoints.len() ==> (#[trigger] breakpoints[i]).line != line,
        },
    decreases breakpoints.len(),
{
    if breakpoints.len() > 0 {
        lemma_on_line(breakpoints.drop_first(), line);
        assert forall|i: int| 0 < i < breakpoints.len() implies #[trigger] breakpoints[i]
            == breakpoints.drop_first()[i - 1] by {}
    }
}

/// A breakpoint that somebody sets on a line.
pub open spec fn plain_breakpoint(line: usize) -> Breakpoint {
    Breakpoint {
        id: None,
        verified: false,
        message: None,
        line,
        column: None,
        condition: None,
        log_message: None,
    }
}

/// A line with a breakpoint loses it, another line gets one.
pub open spec fn toggled(breakpoints: Seq<Breakpoint>, line: usize) -> Seq<Breakpoint> {
    match on_line(breakpoints, line) {
        Some(i) => breakpoints.remove(i),
        None => breakpoints.push(plain_breakpoint(line)),
    }
}

/// Setting a breakpoint on a line without one and toggling it again leaves everything as it was.
pub proof fn law_toggling_twice_undoes_a_new_breakpoint(breakpoints: Seq<Breakpoint>, line: usize)
    requires
        on_line(breakpoints, line) is None,
    ensures
        toggled(toggled(breakpoints, line), line) == breakpoints,
{
    lemma_on_line(breakpoints, line);
    let more = toggled(breakpoints, line);
    lemma_on_line(more, line);
    match on_line(more, line) {
        Some(i) => {
            if i < breakpoints.len() {
                assert(breakpoints[i].line == line);
            }
            assert(more.remove(i) =~= breakpoints);
        },
        None => {
            assert(more[breakpoints.len() as int].line == line);
        },
    }
}

fn find_on_line(breakpoints: &Vec<Breakpoint>, line: usize) -> (r: Option<usize>)
    ensures
        match r {
            Some(i) => i < breakpoints@.len() && on_line(breakpoints@, line) == Some(i as int),
            None => on_line(breakpoints@, line) is None,
        },
{
    let mut i: usize = 0;
    assert(breakpoints@.skip(0) =~= breakpoints@);
    while i < breakpoints.len()
        invariant
            i <= breakpoints@.len(),
            match on_line(breakpoints@.skip(i as int), line) {
                Some(k) => on_line(breakpoints@, line) == Some(k + i),
                None => on_line(breakpoints@, line) is None,
            },
        decreases breakpoints@.len() - i,
    {
        assert(breakpoints@.skip(i as int).drop_first() =~= breakpoints@.skip(i + 1));
        if breakpoints[i].line == line {
            return Some(i);
        }
        i += 1;
    }
    None
}

fn toggle_in(breakpoints: &mut Vec<Breakpoint>, line: usize)
    ensures
        final(breakpoints)@ == toggled(old(breakpoints)@, line),
{
    match find_on_line(breakpoints, line) {
        Some(i) => {
            breakpoints.remove(i);
        },
        None => {
            breakpoints.push(
                Breakpoint {
                    id: None,
                    verified: false,
                    message: None,
                    line,
                    column: None,
                    condition: None,
                    log_message: None,
                },
            );
        },
    }
}

/// Toggles the breakpoint on a line of a file.
pub fn toggle_breakpoint(files: &mut Vec<FileBreakpoints>, path: &Vec<String>, line: usize)
    ensures
        file_views(final(files)@) == with_breakpoints(
            file_views(old(files)@),
            paths::parts(path@),
            |list: Seq<Breakpoint>| toggled(list, line),
        ),
{
    let ghost before = file_views(files@);
    proof {
        lemma_file_index(before, paths::parts(path@));
    }
    match find_file(files, path) {
        Some(i) => {
            let file = &mut files[i];
            toggle_in(&mut file.breakpoints, line);
        },
        None => {
            let mut breakpoints: Vec<Breakpoint> = Vec::new();
            assert(breakpoints@ =~= Seq::<Breakpoint>::empty());
            toggle_in(&mut breakpoints, line);
            files.push(FileBreakpoints { path: copy_path(path), breakpoints });
        },
    }
    assert(file_views(files@) =~= with_breakpoints(
        before,
        paths::parts(path@),
        |list: Seq<Breakpoint>| toggled(list, line),
    ));
}

/// What a [`Breakpoint`] says.
pub struct BreakpointView {
    pub id: Option<usize>,
    pub verified: bool,
    pub message: Option<Seq<char>>,
    pub line: usize,
    pub column: Option<usize>,
    pub condition: Option<Seq<char>>,
    pub log_message: Option<Seq<char>>,
}

pub open spec fn text_view(text: Option<String>) -> Option<Seq<char>> {
    match text {
        Some(text) => Some(text@),
        None => None,
    }
}

impl View for Breakpoint {
    type V = BreakpointView;

    open spec fn view(&self) -> BreakpointView {
        BreakpointView {
            id: self.id,
            verified: self.verified,
            message: text_view(self.message),
            line: self.line,
            column: self.column,
            condition: text_view(self.condition),
            log_message: text_view(self.log_message),
        }
    }
}

pub open spec fn breakpoint_views(breakpoints: Seq<Breakpoint>) -> Seq<BreakpointView> {
    breakpoints.map_values(|breakpoint: Breakpoint| breakpoint@)
}

fn same_optional(a: &Option<String>, b: &Option<String>) -> (r: bool)
    ensures
        r == (text_view(*a) == text_view(*b)),
{
    match (a, b) {
        (Some(x), Some(y)) => same_text(x.as_str(), y.as_str()),
        (None, None) => true,
        _ => false,
    }
}

fn same_breakpoint(a: &Breakpoint, b: &Breakpoint) -> (r: bool)
    ensures
        r == (a@ == b@),
{
    same_id(a.id, b.id) && a.verified == b.verified && same_optional(&a.message, &b.message)
        && a.line == b.line && same_id(a.column, b.column) && same_optional(
        &a.condition,
        &b.condition,
    ) && same_optional(&a.log_message, &b.log_message)
}

/// Whether two lists of breakpoints say the same.
pub fn same_breakpoints(a: &Vec<Breakpoint>, b: &Vec<Breakpoint>) -> (r: bool)
    ensures
        r == (breakpoint_views(a@) == breakpoint_views(b@)),
{
    assert(breakpoint_views(a@).len() == a@.len());
    assert(breakpoint_views(b@).len() == b@.len());
    if a.len() != b.len() {
        return false;
    }
    let mut i: usize = 0;
    while i < a.len()
        invariant
            i <= a@.len(),
            a@.len() == b@.len(),
            forall|j: int| 0 <= j < i ==> (#[trigger] a@[j])@ == b@[j]@,
        decreases a@.len() - i,
    {
        if !same_breakpoint(&a[i], &b[i]) {
            assert(breakpoint_views(a@)[i as int] != breakpoint_views(b@)[i as int]);
            return false;
        }
        i += 1;
    }
    assert(breakpoint_views(a@) =~= breakpoint_views(b@));
    true
}

/// Toggling takes the first breakpoint of the line away, or sets one there if it has none; the
/// breakpoints on other lines stay, in their order.
pub proof fn law_toggling_concerns_one_line(breakpoints: Seq<Breakpoint>, line: usize)
    ensures
        ({
            let after = toggled(breakpoints, line);
            &&& (forall|i: int|
                0 <= i < breakpoints.len() ==> (#[trigger] breakpoints[i]).line != line) ==> {
                &&& after.len() == breakpoints.len() + 1
                &&& after.drop_last() == breakpoints
                &&& after.last().line == line
                &&& !after.last().verified
                &&& after.last().condition is None && after.last().log_message is None
                &&& after.last().id is None
            }
            &&& forall|i: int|
                0 <= i < breakpoints.len() && breakpoints[i].line == line && (forall|j: int|
                    0 <= j < i ==> (#[trigger] breakpoints[j]).line != line) ==> after
                    == #[trigger] breakpoints.remove(i)
        }),
{
    lemma_on_line(breakpoints, line);
    lemma_on_line_is_first(breakpoints, line);
    let after = toggled(breakpoints, line);
    if on_line(breakpoints, line) is None {
        assert(after.drop_last() =~= breakpoints);
    }
}

proof fn lemma_on_line_is_first(breakpoints: Seq<Breakpoint>, line: usize)
    ensures
        on_line(breakpoints, line) matches Some(i) ==> forall|j: int|
            0 <= j < i ==> (#[trigger] breakpoints[j]).line != line,
    decreases breakpoints.len(),
{
    if breakpoints.len() > 0 {
        lemma_on_line_is_first(breakpoints.drop_first(), line);
        lemma_on_line(breakpoints.drop_first(), line);
        assert forall|i: int| 0 < i < breakpoints.len() implies #[trigger] breakpoints[i]
            == breakpoints.drop_first()[i - 1] by {}
    }
}

/// Toggling a breakpoint of a file changes no other file.
pub proof fn law_breakpoints_of_other_files_stay(
    files: Seq<FileView>,
    path: Seq<Seq<char>>,
    line: usize,
    i: int,
)
    requires
        0 <= i < files.len(),
        files[i].path != path,
    ensures
        ({
            let after = with_breakpoints(
                files,
                path,
                |list: Seq<Breakpoint>| toggled(list, line),
            );
            after.len() >= files.len() && after[i] == files[i] && listed(after, path) == toggled(
                listed(files, path),
                line,
            )
        }),
{
    let change = |list: Seq<Breakpoint>| toggled(list, line);
    let after = with_breakpoints(files, path, change);
    lemma_file_index(files, path);
    lemma_file_index_is_first(files, path);
    lemma_file_index(after, path);
    lemma_file_index_is_first(after, path);
    match file_index(files, path) {
        Some(k) => {
            assert(after[k].path == path);
            let n = file_index(after, path)->0;
            if n < k {
                assert(after[n] == files[n]);
            }
        },
        None => {
            assert(after[files.len() as int].path == path);
            let n = file_index(after, path)->0;
            if n < files.len() {
                assert(after[n] == files[n]);
            }
        },
    }
}

proof fn lemma_file_index_is_first(files: Seq<FileView>, path: Seq<Seq<char>>)
    ensures
        file_index(files, path) matches Some(i) ==> forall|j: int|
            0 <= j < i ==> (#[trigger] files[j]).path != path,
    decreases files.len(),
{
    if files.len() > 0 {
        lemma_file_index_is_first(files.drop_first(), path);
        lemma_file_index(files.drop_first(), path);
        assert forall|i: int| 0 < i < files.len() implies #[trigger] files[i]
            == files.drop_first()[i - 1] by {}
    }
}

/// Breakpoints with other ids than the one that an adapter removed stay, and no other.
pub proof fn law_removed_breakpoints_are_gone(breakpoints: Seq<Breakpoint>, id: Option<usize>)
    ensures
        forall|i: int|
            0 <= i < without_id(breakpoints, id).len() ==> (#[trigger] without_id(
                breakpoints,
                id,
            )[i]).id != id && breakpoints.contains(without_id(breakpoints, id)[i]),
        forall|i: int|
            0 <= i < breakpoints.len() && (#[trigger] breakpoints[i]).id != id ==> without_id(
                breakpoints,
                id,
            ).contains(breakpoints[i]),
    decreases breakpoints.len(),
{
    if breakpoints.len() > 0 {
        let before = breakpoints.drop_last();
        let rest = without_id(before, id);
        let all = without_id(breakpoints, id);
        law_removed_breakpoints_are_gone(before, id);
        assert(breakpoints[breakpoints.len() - 1] == breakpoints.last());
        assert forall|i: int| 0 <= i < all.len() implies (#[trigger] all[i]).id != id
            && breakpoints.contains(all[i]) by {
            if i < rest.len() {
                assert(all[i] == rest[i]);
                let k = before.index_of(rest[i]);
                assert(breakpoints[k] == all[i]);
            }
        }
        assert forall|i: int|
            0 <= i < breakpoints.len() && (#[trigger] breakpoints[i]).id != id implies all.contains(
            breakpoints[i],
        ) by {
            if i < before.len() {
                assert(before[i] == breakpoints[i]);
                let k = rest.index_of(before[i]);
                assert(all[k] == breakpoints[i]);
            } else {
                assert(all[rest.len() as int] == breakpoints[i]);
            }
        }
    }
}

/// News about a breakpoint reach the first with its id, whose line counts from one for the
/// adapter; the others stay, each in its place.
pub proof fn law_news_reach_the_first_of_their_id(
    breakpoints: Seq<Breakpoint>,
    news: AdapterBreakpoint,
)
    ensures
        with_changed(breakpoints, news).len() == breakpoints.len(),
        forall|i: int|
            0 <= i < breakpoints.len() ==> {
                let now = #[trigger] with_changed(breakpoints, news)[i];
                let was = breakpoints[i];
                if was.id == news.id && forall|j: int|
                    0 <= j < i ==> (#[trigger] breakpoints[j]).id != news.id {
                    &&& now.id == was.id
                    &&& now.verified == news.verified
                    &&& news.line matches Some(line) ==> now.line == (if line > 0 {
                        line - 1
                    } else {
                        0
                    })
                    &&& news.line is None ==> now.line == was.line
                    &&& now.message == (if news.message is Some {
                        news.message
                    } else {
                        was.message
                    })
                    &&& now.column == (if news.column is Some {
                        news.column
                    } else {
                        was.column
                    })
                    &&& now.condition == was.condition
                    &&& now.log_message == was.log_message
                } else {
                    now == was
                }
            },
    decreases breakpoints.len(),
{
    if breakpoints.len() > 0 {
        let rest = breakpoints.drop_first();
        law_news_reach_the_first_of_their_id(rest, news);
        let all = with_changed(breakpoints, news);
        if breakpoints[0].id != news.id {
            assert forall|i: int| 0 < i < breakpoints.len() implies #[trigger] all[i]
                == with_changed(rest, news)[i - 1] by {}
            assert forall|i: int|
                #![trigger all[i]]
                0 < i < breakpoints.len() implies (forall|j: int|
                0 <= j < i ==> (#[trigger] breakpoints[j]).id != news.id) == (forall|j: int|
                0 <= j < i - 1 ==> (#[trigger] rest[j]).id != news.id) by {
                if forall|j: int| 0 <= j < i - 1 ==> (#[trigger] rest[j]).id != news.id {
                    assert forall|j: int| 0 <= j < i implies (#[trigger] breakpoints[j]).id
                        != news.id by {
                        if j > 0 {
                            assert(rest[j - 1] == breakpoints[j]);
                        }
                    }
                }
            }
        }
    }
}

/// A breakpoint that an adapter made is filed behind the others of its file, on the line that it
/// counts from one; one without a place is not filed, and news of an unknown kind change nothing.
pub proof fn law_new_breakpoints_are_filed(
    files: Seq<FileView>,
    file: int,
    breakpoint: AdapterBreakpoint,
)
    requires
        0 <= file < files.len(),
        breakpoint.path is Some,
        breakpoint.line is Some,
        paths::parts(breakpoint.path->0@) == files[file].path,
        forall|i: int|
            0 <= i < files.len() && i != file ==> (#[trigger] files[i]).path != files[file].path,
    ensures
        ({
            let after = breakpoints_after(files, BreakpointReason::New, breakpoint);
            let list = after[file].breakpoints;
            &&& after.len() == files.len()
            &&& list.len() == files[file].breakpoints.len() + 1
            &&& list.drop_last() == files[file].breakpoints
            &&& breakpoint.line->0 > 0 ==> list.last().line + 1 == breakpoint.line->0
            &&& list.last().id == breakpoint.id
            &&& list.last().verified == breakpoint.verified
            &&& forall|i: int|
                0 <= i < files.len() && i != file ==> #[trigger] after[i] == files[i]
        }),
        breakpoints_after(files, BreakpointReason::Unknown, breakpoint) == files,
        breakpoints_after(
            files,
            BreakpointReason::New,
            AdapterBreakpoint { path: None, ..breakpoint },
        ) == files,
{
    let path = files[file].path;
    lemma_file_index(files, path);
    assert(file_index(files, path) == Some(file));
    let after = breakpoints_after(files, BreakpointReason::New, breakpoint);
    assert(after[file].breakpoints.drop_last() =~= files[file].breakpoints);
}

/// News reach the breakpoints of every file, each file by itself.
pub proof fn law_news_reach_every_file(
    files: Seq<FileView>,
    breakpoint: AdapterBreakpoint,
    i: int,
)
    requires
        0 <= i < files.len(),
    ensures
        breakpoints_after(files, BreakpointReason::Changed, breakpoint)[i].breakpoints
            == with_changed(files[i].breakpoints, breakpoint),
        breakpoints_after(files, BreakpointReason::Removed, breakpoint)[i].breakpoints
            == without_id(files[i].breakpoints, breakpoint.id),
        breakpoints_after(files, BreakpointReason::Changed, breakpoint)[i].path == files[i].path,
        breakpoints_after(files, BreakpointReason::Removed, breakpoint).len() == files.len(),
{
}

/// When a session ends no breakpoint is known to be set any more; all else about it stays.
pub proof fn law_ended_sessions_leave_breakpoints(files: Seq<FileView>, i: int, j: int)
    requires
        0 <= i < files.len(),
        0 <= j < files[i].breakpoints.len(),
    ensures
        ({
            let after = map_files(files, |list: Seq<Breakpoint>| all_unverified(list));
            let before = files[i].breakpoints[j];
            let left = after[i].breakpoints[j];
            &&& after.len() == files.len()
            &&& after[i].path == files[i].path
            &&& after[i].breakpoints.len() == files[i].breakpoints.len()
            &&& !left.verified
            &&& left.line == before.line
            &&& left.id == before.id
            &&& left.condition == before.condition
            &&& !before.verified ==> left == before
        }),
{
}

/// Lists of breakpoints are alike exactly if each breakpoint is like the one in its place.
pub proof fn law_lists_are_alike_in_each_place(a: Seq<Breakpoint>, b: Seq<Breakpoint>)
    ensures
        breakpoint_views(a) == breakpoint_views(b) <==> a.len() == b.len() && forall|i: int|
            0 <= i < a.len() ==> (#[trigger] a[i])@ == b[i]@,
{
    if breakpoint_views(a) == breakpoint_views(b) {
        assert(a.len() == breakpoint_views(a).len() && b.len() == breakpoint_views(b).len());
        assert forall|i: int| 0 <= i < a.len() implies (#[trigger] a[i])@ == b[i]@ by {
            assert(breakpoint_views(a)[i] == breakpoint_views(b)[i]);
        }
    } else if a.len() == b.len() && (forall|i: int|
        0 <= i < a.len() ==> (#[trigger] a[i])@ == b[i]@) {
        assert(breakpoint_views(a) =~= breakpoint_views(b));
    }
}

pub(crate) proof fn lemma_listed_after(
    files: Seq<FileView>,
    path: Seq<Seq<char>>,
    change: spec_fn(Seq<Breakpoint>) -> Seq<Breakpoint>,
)
    ensures
        listed(with_breakpoints(files, path, change), path) == change(listed(files, path)),
{
    let after = with_breakpoints(files, path, change);
    lemma_file_index(files, path);
    lemma_file_index_is_first(files, path);
    lemma_file_index(after, path);
    lemma_file_index_is_first(after, path);
    match file_index(files, path) {
        Some(k) => {
            assert(after[k].path == path);
            let n = file_index(after, path)->0;
            if n < k {
                assert(after[n] == files[n]);
            }
        },
        None => {
            assert(after[files.len() as int].path == path);
            let n = file_index(after, path)->0;
            if n < files.len() {
                assert(after[n] == files[n]);
            }
        },
    }
}

} // verus!
