//! Rectangles of terminal cells.

use vstd::prelude::*;

verus! {

/// A rectangle of cells.
#[derive(Debug, Clone, Copy, PartialEq, Eq, Structural)]
pub struct Rect {
    pub x: u16,
    pub y: u16,
    pub width: u16,
    pub height: u16,
}

impl Rect {
    pub fn new(x: u16, y: u16, width: u16, height: u16) -> (r: Rect)
        ensures
            r == (Rect { x, y, width, height }),
    {
        Rect { x, y, width, height }
    }

    /// The rectangle of no cells.
    pub open spec fn nothing() -> Rect {
        Rect { x: 0, y: 0, width: 0, height: 0 }
    }

    /// Its far edges have coordinates.
    pub open spec fn fits(self) -> bool {
        self.x + self.width <= u16::MAX && self.y + self.height <= u16::MAX
    }

    pub open spec fn has(self, column: int, row: int) -> bool {
        &&& self.x <= column < self.x + self.width
        &&& self.y <= row < self.y + self.height
    }

    /// Every cell of this rectangle is a cell of the other.
    pub open spec fn within(self, other: Rect) -> bool {
        &&& other.x <= self.x
        &&& self.x + self.width <= other.x + other.width
        &&& other.y <= self.y
        &&& self.y + self.height <= other.y + other.height
    }

    /// No cell belongs to both.
    pub open spec fn apart(self, other: Rect) -> bool {
        ||| self.x + self.width <= other.x
        ||| other.x + other.width <= self.x
        ||| self.y + self.height <= other.y
        ||| other.y + other.height <= self.y
    }

    /// The first row below, as far as rows go.
    pub open spec fn spec_bottom(self) -> u16 {
        if self.y + self.height <= u16::MAX {
            (self.y + self.height) as u16
        } else {
            u16::MAX
        }
    }

    pub fn bottom(&self) -> (r: u16)
        ensures
            r == self.spec_bottom(),
    {
        self.y.saturating_add(self.height)
    }

    /// Whether the cell belongs to the rectangle.
    pub fn contains(&self, column: u16, row: u16) -> (r: bool)
        ensures
            r == self.has(column as int, row as int),
    {
        column >= self.x && row >= self.y && column - self.x < self.width && row - self.y
            < self.height
    }

    /// Without rows at the bottom.
    pub fn clip_bottom(self, rows: u16) -> (r: Rect)
        ensures
            r == (Rect {
                height: if rows <= self.height {
                    (self.height - rows) as u16
                } else {
                    0
                },
                ..self
            }),
    {
        Rect { height: self.height.saturating_sub(rows), ..self }
    }

    /// Without rows at the top, as far as rows go.
    pub open spec fn lowered(self, rows: u16) -> Rect {
        let cut = if rows <= self.height {
            rows
        } else {
            self.height
        };
        Rect {
            y: if self.y + cut <= u16::MAX {
                (self.y + cut) as u16
            } else {
                u16::MAX
            },
            height: (self.height - cut) as u16,
            ..self
        }
    }

    /// Without rows at the top.
    pub fn clip_top(self, rows: u16) -> (r: Rect)
        ensures
            r == self.lowered(rows),
    {
        let cut: u16 = if rows <= self.height {
            rows
        } else {
            self.height
        };
        Rect { y: self.y.saturating_add(cut), height: self.height - cut, ..self }
    }
}

/// Rectangles that are apart share no cell.
pub proof fn law_apart_share_no_cell(a: Rect, b: Rect, column: int, row: int)
    requires
        a.apart(b),
    ensures
        !(a.has(column, row) && b.has(column, row)),
{
}

/// What is cut off above leaves the rest where it is, down to the same edge.
pub proof fn law_cutting_above_leaves_the_rest(area: Rect, rows: u16, column: int, row: int)
    requires
        area.y + area.height <= u16::MAX,
    ensures
        area.lowered(rows).has(column, row) <==> area.has(column, row) && row >= area.y + rows,
        rows <= area.height ==> area.lowered(rows).height + rows == area.height,
        rows > area.height ==> area.lowered(rows).height == 0,
        area.lowered(rows).spec_bottom() == area.spec_bottom(),
        area.has(column, row) ==> row < area.spec_bottom(),
        area.height > 0 && area.width > 0 ==> area.has(area.x as int, area.spec_bottom() - 1),
{
}

} // verus!
