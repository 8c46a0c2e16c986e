//! When the places that a snippet left to fill in are given up.

use vstd::prelude::*;

verus! {

/// What may end a snippet.
#[derive(Debug, Clone, Copy, PartialEq, Eq, Structural)]
pub enum SnippetEvent {
    /// The selection has changed; it may still be in one of the places.
    SelectionChanged { valid: bool },
    /// The text has changed; the places may be lost by that.
    DocumentChanged { invalid: bool },
    FocusLost,
}

/// Whether the snippet of a document ends.
pub fn ends_snippet(active: bool, event: SnippetEvent) -> (r: bool)
    ensures
        r == match event {
            SnippetEvent::SelectionChanged { valid } => active && !valid,
            SnippetEvent::DocumentChanged { invalid } => active && invalid,
            SnippetEvent::FocusLost => true,
        },
{
    match event {
        SnippetEvent::SelectionChanged { valid } => active && !valid,
        SnippetEvent::DocumentChanged { invalid } => active && invalid,
        SnippetEvent::FocusLost => true,
    }
}

} // verus!
