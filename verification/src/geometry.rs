//! Axis-aligned character-cell rectangles.

use vstd::prelude::*;

verus! {

/// A rectangle in character cells. The origin is the top-left corner of the
/// space the rectangle was allocated from; `width` grows rightward and
/// `height` grows downward.
#[derive(Clone, Copy, PartialEq, Eq, Structural, Debug)]
pub struct Rect {
    pub x: u16,
    pub y: u16,
    pub width: u16,
    pub height: u16,
}

impl Rect {
    /// A rectangle stays addressable in `u16` cell coordinates: its far
    /// edges do not run past `u16::MAX`.
    pub open spec fn wf(self) -> bool {
        self.x + self.width <= u16::MAX && self.y + self.height <= u16::MAX
    }

    pub open spec fn spec_right(self) -> int {
        self.x + self.width
    }

    pub open spec fn spec_bottom(self) -> int {
        self.y + self.height
    }

    /// True when the cell at absolute coordinates `(cx, cy)` lies inside.
    pub open spec fn contains(self, cx: int, cy: int) -> bool {
        self.x <= cx < self.x + self.width && self.y <= cy < self.y + self.height
    }

    pub fn new(x: u16, y: u16, width: u16, height: u16) -> (r: Rect)
        requires
            x + width <= u16::MAX,
            y + height <= u16::MAX,
        ensures
            r == (Rect { x, y, width, height }),
            r.wf(),
    {
        Rect { x, y, width, height }
    }

    pub fn right(&self) -> (r: u16)
        requires
            self.wf(),
        ensures
            r == self.spec_right(),
    {
        self.x + self.width
    }

    pub fn bottom(&self) -> (r: u16)
        requires
            self.wf(),
        ensures
            r == self.spec_bottom(),
    {
        self.y + self.height
    }

    /// The interior left after a one-cell border is drawn on every side:
    /// the content area of a bordered block. Degenerate rectangles
    /// (thinner than the border itself) shrink to an empty rectangle.
    pub open spec fn spec_inner(self) -> Rect {
        if self.width >= 2 && self.height >= 2 {
            Rect {
                x: (self.x + 1) as u16,
                y: (self.y + 1) as u16,
                width: (self.width - 2) as u16,
                height: (self.height - 2) as u16,
            }
        } else {
            Rect { x: self.x, y: self.y, width: 0, height: 0 }
        }
    }

    pub fn inner(&self) -> (r: Rect)
        requires
            self.wf(),
        ensures
            r == self.spec_inner(),
            r.wf(),
            // the content area lies strictly inside the block
            forall|cx: int, cy: int| r.contains(cx, cy) ==> self.contains(cx, cy),
    {
        if self.width >= 2 && self.height >= 2 {
            Rect { x: self.x + 1, y: self.y + 1, width: self.width - 2, height: self.height - 2 }
        } else {
            Rect { x: self.x, y: self.y, width: 0, height: 0 }
        }
    }
}

} // verus!
