//! Searching the files of a workspace.

use vstd::prelude::*;

use crate::paths;
use crate::paths::{join_parts, strip_prefix};
use crate::text;
use crate::text::{chars_of, is_whitespace};

verus! {

/// How many files a search gives at most.
pub const FILE_SEARCH_LIMIT: usize = 1000;

pub const GREP_SEARCH_LIMIT: usize = 2000;

/// How long the first results of a scan are waited for, in milliseconds.
pub const FIRST_RESULTS_WAIT: u64 = 2000;

/// How many threads search, of those that there are: a quarter, and at least one, is left to the
/// rest of the editor, but one always searches.
pub fn responsive_search_threads_for(available: usize) -> (r: usize)
    ensures
        ({
            let reserved = if available / 4 < 1 {
                1
            } else {
                (available / 4) as int
            };
            r == if available - reserved < 1 {
                1
            } else {
                available - reserved
            }
        }),
{
    let reserved: usize = if available / 4 < 1 {
        1
    } else {
        available / 4
    };
    let searching: usize = available.saturating_sub(reserved);
    if searching < 1 {
        1
    } else {
        searching
    }
}

/// A search never takes all threads of a machine with more than one, and always some.
pub proof fn law_searches_leave_a_thread(available: usize)
    requires
        available >= 2,
    ensures
        ({
            let reserved = if available / 4 < 1 {
                1
            } else {
                (available / 4) as int
            };
            1 <= available - reserved < available
        }),
{
}

/// Nothing but white space.
pub open spec fn blank(query: Seq<char>) -> bool {
    forall|i: int| 0 <= i < query.len() ==> text::is_white(#[trigger] query[i])
}

/// Whether a query asks for nothing in particular.
pub fn is_blank(query: &str) -> (r: bool)
    ensures
        r == blank(query@),
{
    let chars = chars_of(query);
    let mut i: usize = 0;
    while i < chars.len()
        invariant
            i <= chars@.len(),
            chars@ == query@,
            forall|j: int| 0 <= j < i ==> text::is_white(#[trigger] query@[j]),
        decreases chars@.len() - i,
    {
        if !is_whitespace(chars[i]) {
            assert(!text::is_white(query@[i as int]));
            return false;
        }
        i += 1;
    }
    true
}

/// A file of the index.
#[derive(Debug)]
pub struct IndexedFile {
    pub path: String,
    pub deleted: bool,
}

/// A file that a search found, and the query it was found by.
#[derive(Debug)]
pub struct FileMatch {
    pub path: String,
    pub query: String,
}

/// The paths of the first `limit` files that are still there.
pub open spec fn listed(files: Seq<IndexedFile>, limit: nat) -> Seq<Seq<char>>
    decreases files.len(),
{
    if files.len() == 0 {
        seq![]
    } else {
        let rest = listed(files.drop_last(), limit);
        if !files.last().deleted && rest.len() < limit {
            rest.push(files.last().path@)
        } else {
            rest
        }
    }
}

/// What a query that asks for nothing in particular finds: the files in the order of the index,
/// as far as the search got before it was called off after `seen` files, if it was.
pub fn list_files(files: &Vec<IndexedFile>, query: &str, aborted_after: Option<usize>) -> (r: Vec<
    FileMatch,
>)
    ensures
        ({
            let n = match aborted_after {
                Some(seen) => if seen < files@.len() {
                    seen as int
                } else {
                    files@.len() as int
                },
                None => files@.len() as int,
            };
            &&& r@.map_values(|m: FileMatch| m.path@) == listed(
                files@.take(n),
                FILE_SEARCH_LIMIT as nat,
            )
            &&& forall|i: int| 0 <= i < r@.len() ==> (#[trigger] r@[i]).query@ == query@
        }),
{
    let n: usize = match aborted_after {
        Some(seen) => if seen < files.len() {
            seen
        } else {
            files.len()
        },
        None => files.len(),
    };
    let mut matches: Vec<FileMatch> = Vec::new();
    let mut i: usize = 0;
    assert(files@.take(0) =~= seq![]);
    assert(matches@.map_values(|m: FileMatch| m.path@) =~= seq![]);
    while i < n
        invariant
            i <= n <= files@.len(),
            matches@.map_values(|m: FileMatch| m.path@) == listed(
                files@.take(i as int),
                FILE_SEARCH_LIMIT as nat,
            ),
            forall|j: int| 0 <= j < matches@.len() ==> (#[trigger] matches@[j]).query@ == query@,
        decreases n - i,
    {
        let ghost before = matches@;
        assert(files@.take(i + 1).drop_last() =~= files@.take(i as int));
        assert(before.map_values(|m: FileMatch| m.path@).len() == before.len());
        if !files[i].deleted && matches.len() < FILE_SEARCH_LIMIT {
            matches.push(FileMatch { path: files[i].path.clone(), query: query.to_owned() });
            assert(matches@.map_values(|m: FileMatch| m.path@) =~= before.map_values(
                |m: FileMatch| m.path@,
            ).push(files@[i as int].path@));
        }
        i += 1;
    }
    matches
}

/// What a query finds whose files were looked up in the index: these, in this order.
pub fn found_files(paths: &Vec<String>, query: &str) -> (r: Vec<FileMatch>)
    ensures
        r@.len() == paths@.len(),
        forall|i: int|
            0 <= i < r@.len() ==> (#[trigger] r@[i]).path@ == paths@[i]@ && r@[i].query@ == query@,
{
    let mut matches: Vec<FileMatch> = Vec::new();
    let mut i: usize = 0;
    while i < paths.len()
        invariant
            i <= paths@.len(),
            matches@.len() == i,
            forall|j: int|
                0 <= j < i ==> (#[trigger] matches@[j]).path@ == paths@[j]@ && matches@[j].query@
                    == query@,
        decreases paths@.len() - i,
    {
        matches.push(FileMatch { path: paths[i].clone(), query: query.to_owned() });
        i += 1;
    }
    matches
}

/// Whether a search can be made. Searching in files needs a scan that is over; searching for
/// them does not.
pub fn index_is_usable(in_files: bool, scan_ready: bool, initialized: bool) -> (r: Result<
    (),
    String,
>)
    ensures
        match r {
            Ok(_) => (!in_files || scan_ready) && initialized,
            Err(message) => if in_files && !scan_ready {
                message@ == "FFF scan is not ready"@
            } else {
                !initialized && message@ == "FFF picker is not initialized"@
            },
        },
{
    if in_files && !scan_ready {
        Err("FFF scan is not ready".to_owned())
    } else if !initialized {
        Err("FFF picker is not initialized".to_owned())
    } else {
        Ok(())
    }
}

/// A backslash becomes a slash.
pub open spec fn slashed(path: Seq<char>) -> Seq<char> {
    path.map_values(
        |c: char|
            if c == '\\' {
                '/'
            } else {
                c
            },
    )
}

/// The path of a file below the root, with slashes, where it lies there.
pub fn relative_path(root: &Vec<String>, path: &Vec<String>) -> (r: Option<String>)
    ensures
        match (r, paths::stripped(paths::parts(path@), paths::parts(root@))) {
            (Some(text), Some(rest)) => text@ == slashed(paths::joined(rest)),
            (None, None) => true,
            _ => false,
        },
{
    let rest = match strip_prefix(path, root) {
        Some(rest) => rest,
        None => {
            return None;
        },
    };
    let text = join_parts(&rest);
    let chars = chars_of(text.as_str());
    let mut out = String::new();
    let mut i: usize = 0;
    assert(out@ =~= slashed(chars@.take(0)));
    while i < chars.len()
        invariant
            i <= chars@.len(),
            out@ == slashed(chars@.take(i as int)),
        decreases chars@.len() - i,
    {
        let c = chars[i];
        if c == '\\' {
            out.push('/');
        } else {
            out.push(c);
        }
        i += 1;
        assert(out@ =~= slashed(chars@.take(i as int)));
    }
    assert(chars@.take(i as int) =~= chars@);
    Some(out)
}

/// A line that a search in files found.
#[derive(Debug)]
pub struct GrepMatch {
    pub path: String,
    pub line_num: u64,
}

/// A found line as the index gives it, counted from one.
#[derive(Debug)]
pub struct IndexedLine {
    pub path: String,
    pub line_number: u64,
}

/// Lines are counted from zero here.
pub open spec fn grep_line(line: IndexedLine) -> (Seq<char>, u64) {
    (
        line.path@,
        if line.line_number > 0 {
            (line.line_number - 1) as u64
        } else {
            0
        },
    )
}

/// The lines that a search in files found, unless its pattern could not be read.
pub fn grep_matches(lines: &Vec<IndexedLine>, pattern_error: Option<String>) -> (r: Result<
    Vec<GrepMatch>,
    String,
>)
    ensures
        match (r, pattern_error) {
            (Ok(matches), None) => matches@.map_values(|m: GrepMatch| (m.path@, m.line_num))
                == lines@.map_values(|l: IndexedLine| grep_line(l)),
            (Err(message), Some(error)) => message@ == "failed to compile regex: "@ + error@,
            _ => false,
        },
{
    if let Some(error) = pattern_error {
        return Err(crate::text::join("failed to compile regex: ", error.as_str()));
    }
    let mut matches: Vec<GrepMatch> = Vec::new();
    let mut i: usize = 0;
    while i < lines.len()
        invariant
            i <= lines@.len(),
            matches@.len() == i,
            forall|j: int|
                0 <= j < i ==> ((#[trigger] matches@[j]).path@, matches@[j].line_num) == grep_line(
                    lines@[j],
                ),
        decreases lines@.len() - i,
    {
        matches.push(
            GrepMatch {
                path: lines[i].path.clone(),
                line_num: lines[i].line_number.saturating_sub(1),
            },
        );
        i += 1;
    }
    assert(matches@.map_values(|m: GrepMatch| (m.path@, m.line_num)) =~= lines@.map_values(
        |l: IndexedLine| grep_line(l),
    ));
    Ok(matches)
}

/// What somebody who waits for the first results of a scan does next.
#[derive(Debug, Clone, Copy, PartialEq, Eq, Structural)]
pub enum ScanPoll {
    /// There are results.
    Ready,
    /// There will be none in time.
    GiveUp,
    /// Look again a little later.
    Wait,
}

/// Results that are there are taken; a scan that is over without any, or takes too long, is
/// given up on.
pub fn poll_initial_results(elapsed: u64, any_files: bool, scan_done: bool) -> (r: ScanPoll)
    ensures
        r == if elapsed >= FIRST_RESULTS_WAIT {
            ScanPoll::GiveUp
        } else if any_files {
            ScanPoll::Ready
        } else if scan_done {
            ScanPoll::GiveUp
        } else {
            ScanPoll::Wait
        },
{
    if elapsed >= FIRST_RESULTS_WAIT {
        ScanPoll::GiveUp
    } else if any_files {
        ScanPoll::Ready
    } else if scan_done {
        ScanPoll::GiveUp
    } else {
        ScanPoll::Wait
    }
}

/// Files that are there are listed in order, up to the limit; deleted ones are not.
pub proof fn law_files_are_listed_up_to_the_limit(
    files: Seq<IndexedFile>,
    file: IndexedFile,
    limit: nat,
)
    ensures
        listed(Seq::<IndexedFile>::empty(), limit).len() == 0,
        listed(files, limit).len() <= limit,
        file.deleted ==> listed(files.push(file), limit) == listed(files, limit),
        !file.deleted && listed(files, limit).len() < limit ==> listed(files.push(file), limit)
            == listed(files, limit).push(file.path@),
        listed(files, limit).len() == limit ==> listed(files.push(file), limit) == listed(
            files,
            limit,
        ),
    decreases files.len(),
{
    assert(files.push(file).drop_last() =~= files);
    if files.len() > 0 {
        law_files_are_listed_up_to_the_limit(files.drop_last(), files.last(), limit);
    }
}

/// Paths are shown with slashes and else as they are; lines that are found count from zero.
pub proof fn law_places_are_shown_alike(path: Seq<char>, line: IndexedLine, i: int)
    requires
        0 <= i < path.len(),
    ensures
        slashed(path).len() == path.len(),
        slashed(path)[i] != '\\',
        path[i] != '\\' ==> slashed(path)[i] == path[i],
        path[i] == '\\' ==> slashed(path)[i] == '/',
        grep_line(line).0 == line.path@,
        line.line_number > 0 ==> grep_line(line).1 + 1 == line.line_number,
{
}

/// A query is blank as long as only blanks were typed.
pub proof fn law_blank_queries_hold_blanks_alone(query: Seq<char>, c: char)
    ensures
        blank(Seq::<char>::empty()),
        blank(query.push(c)) <==> blank(query) && text::is_white(c),
{
    if blank(query.push(c)) {
        assert(query.push(c)[query.len() as int] == c);
        assert forall|i: int| 0 <= i < query.len() implies text::is_white(#[trigger] query[i]) by {
            assert(query.push(c)[i] == query[i]);
        }
    }
}

/// A line without a number is shown as the first.
pub proof fn law_lines_without_a_number_are_the_first(line: IndexedLine)
    ensures
        line.line_number <= 1 ==> grep_line(line).1 == 0,
        line.line_number > 1 ==> grep_line(line).1 > 0,
{
}

} // verus!
