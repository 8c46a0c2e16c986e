//! What components see while a frame is drawn.

use vstd::prelude::*;

use crate::effect::dap::breakpoints;
use crate::effect::dap::breakpoints::{find_file, Breakpoint, FileBreakpoints};
use crate::effect::dap::StackFrame;
use crate::paths;

verus! {

/// Where a stopped program is: a line, counted from zero, and a file if it is known.
#[derive(Debug)]
pub struct DebugExecutionPosition<'a> {
    pub line: usize,
    pub path: Option<&'a String>,
}

/// What a frame shows of the debugger.
#[derive(Debug, Clone, Copy)]
pub struct RenderSnapshot<'a> {
    pub breakpoints: &'a Vec<FileBreakpoints>,
    /// Where the program has stopped, if it has.
    pub stack_frame: Option<&'a StackFrame>,
}

impl<'a> RenderSnapshot<'a> {
    /// `found` are the breakpoints of the file that a document shows, if it shows one that has
    /// any.
    pub open spec fn has_breakpoints(
        self,
        path: Option<Seq<Seq<char>>>,
        found: Option<&Vec<Breakpoint>>,
    ) -> bool {
        let at = match path {
            Some(path) => breakpoints::file_index(
                breakpoints::file_views(self.breakpoints@),
                path,
            ),
            None => None,
        };
        match (found, at) {
            (Some(found), Some(i)) => *found == self.breakpoints@[i].breakpoints,
            (None, None) => true,
            _ => false,
        }
    }

    /// `position` is where the program has stopped. Adapters count lines from one.
    pub open spec fn stopped_at(self, position: Option<DebugExecutionPosition<'a>>) -> bool {
        match (position, self.stack_frame) {
            (Some(position), Some(frame)) => {
                &&& position.line == if frame.line > 0 {
                    frame.line - 1
                } else {
                    0
                }
                &&& match (position.path, frame.path) {
                    (Some(shown), Some(path)) => *shown == path,
                    (None, None) => true,
                    _ => false,
                }
            },
            (None, None) => true,
            _ => false,
        }
    }

    /// The breakpoints of the file that a document shows, if it shows one that has any.
    pub fn breakpoints_for_document(&self, path: Option<&Vec<String>>) -> (r: Option<
        &'a Vec<Breakpoint>,
    >)
        ensures
            self.has_breakpoints(
                match path {
                    Some(path) => Some(paths::parts(path@)),
                    None => None,
                },
                r,
            ),
    {
        match path {
            Some(path) => match find_file(self.breakpoints, path) {
                Some(i) => Some(&self.breakpoints[i].breakpoints),
                None => None,
            },
            None => None,
        }
    }

    /// Where a stopped program is.
    pub fn debug_execution_position(&self) -> (r: Option<DebugExecutionPosition<'a>>)
        ensures
            self.stopped_at(r),
    {
        match self.stack_frame {
            Some(frame) => {
                let path = match &frame.path {
                    Some(path) => Some(path),
                    None => None,
                };
                Some(DebugExecutionPosition { line: frame.line.saturating_sub(1), path })
            },
            None => None,
        }
    }
}

/// Stands for no scroll offset.
pub const SCROLL_NONE: usize = usize::MAX;

/// What is handed to every component while a frame is drawn.
#[derive(Debug)]
pub struct RenderContext<'a> {
    snapshot: RenderSnapshot<'a>,
    scroll: usize,
}

impl<'a> RenderContext<'a> {
    /// What the frame shows of the debugger.
    pub closed spec fn spec_snapshot(self) -> RenderSnapshot<'a> {
        self.snapshot
    }

    /// The scroll offset that a parent hands to its child. The largest number stands for none.
    pub closed spec fn spec_scroll(self) -> Option<usize> {
        if self.scroll == SCROLL_NONE {
            None
        } else {
            Some(self.scroll)
        }
    }

    pub fn new(snapshot: RenderSnapshot<'a>) -> (r: Self)
        ensures
            r.spec_snapshot() == snapshot,
            r.spec_scroll() is None,
    {
        Self::with_scroll(snapshot, None)
    }

    pub fn with_scroll(snapshot: RenderSnapshot<'a>, scroll: Option<usize>) -> (r: Self)
        ensures
            r.spec_snapshot() == snapshot,
            r.spec_scroll() == kept_scroll(scroll),
    {
        match scroll {
            Some(value) => RenderContext { snapshot, scroll: value },
            None => RenderContext { snapshot, scroll: SCROLL_NONE },
        }
    }

    pub fn scroll(&self) -> (r: Option<usize>)
        ensures
            r == self.spec_scroll(),
    {
        if self.scroll == SCROLL_NONE {
            None
        } else {
            Some(self.scroll)
        }
    }

    pub fn set_scroll(&mut self, value: Option<usize>)
        ensures
            final(self).spec_snapshot() == old(self).spec_snapshot(),
            final(self).spec_scroll() == kept_scroll(value),
    {
        self.scroll = match value {
            Some(value) => value,
            None => SCROLL_NONE,
        };
    }

    pub fn breakpoints_for_document(&self, path: Option<&Vec<String>>) -> (r: Option<
        &'a Vec<Breakpoint>,
    >)
        ensures
            self.spec_snapshot().has_breakpoints(
                match path {
                    Some(path) => Some(paths::parts(path@)),
                    None => None,
                },
                r,
            ),
    {
        self.snapshot.breakpoints_for_document(path)
    }

    pub fn debug_execution_position(&self) -> (r: Option<DebugExecutionPosition<'a>>)
        ensures
            self.spec_snapshot().stopped_at(r),
    {
        self.snapshot.debug_execution_position()
    }
}

/// What is read back of an offset that was set.
pub open spec fn kept_scroll(value: Option<usize>) -> Option<usize> {
    match value {
        Some(offset) => if offset == SCROLL_NONE {
            None
        } else {
            value
        },
        None => None,
    }
}

/// The breakpoints of a document are those of its file; a document without a file, or whose file
/// has none, has none. Adapters count lines from one.
pub proof fn law_documents_show_their_own_breakpoints(
    snapshot: RenderSnapshot,
    file: int,
    found: Option<&Vec<Breakpoint>>,
    position: Option<DebugExecutionPosition>,
)
    requires
        0 <= file < snapshot.breakpoints@.len(),
        forall|i: int|
            0 <= i < snapshot.breakpoints@.len() && i != file ==> paths::parts(
                (#[trigger] snapshot.breakpoints@[i]).path@,
            ) != paths::parts(snapshot.breakpoints@[file].path@),
    ensures
        snapshot.has_breakpoints(
            Some(paths::parts(snapshot.breakpoints@[file].path@)),
            found,
        ) ==> found == Some(&snapshot.breakpoints@[file].breakpoints),
        snapshot.has_breakpoints(None, found) ==> found is None,
        snapshot.stopped_at(position) ==> (position is Some <==> snapshot.stack_frame is Some),
        snapshot.stopped_at(position) && position is Some && snapshot.stack_frame->0.line > 0
            ==> position->0.line + 1 == snapshot.stack_frame->0.line,
{
    let views = breakpoints::file_views(snapshot.breakpoints@);
    let path = paths::parts(snapshot.breakpoints@[file].path@);
    breakpoints::lemma_file_index(views, path);
    assert(views[file] == snapshot.breakpoints@[file]@);
    assert forall|i: int| 0 <= i < views.len() && i != file implies (#[trigger] views[i]).path
        != path by {
        assert(views[i] == snapshot.breakpoints@[i]@);
    }
    assert(breakpoints::file_index(views, path) == Some(file));
}

/// How far a panel is scrolled is kept, for every distance that is not the mark of none.
pub proof fn law_scroll_is_kept(offset: usize)
    ensures
        offset < usize::MAX ==> kept_scroll(Some(offset)) == Some(offset),
        kept_scroll(None) is None,
        kept_scroll(kept_scroll(Some(offset))) == kept_scroll(Some(offset)),
{
}

} // verus!
