//! What the terminal host is asked to do.

use vstd::prelude::*;

use crate::geometry::Rect;

verus! {

/// Mark a region, or the whole surface, as needing a redraw.
#[derive(Debug, Clone, Copy, PartialEq, Eq, Structural)]
pub enum Invalidation {
    Full,
    Rect(Rect),
}

} // verus!
