//! The frame buffer: a grid of styled character cells, row-major.

use vstd::prelude::*;

use crate::geometry::Rect;
use crate::style::Cell;

verus! {

/// A frame of `width * height` cells, stored row-major: the cell at
/// column `x`, row `y` lives at index `y * width + x`.
#[derive(PartialEq, Debug)]
pub struct Buffer {
    pub width: u16,
    pub height: u16,
    pub cells: Vec<Cell>,
}

/// Writing one cell: an in-range write updates the row-major slot, an
/// out-of-range write leaves the frame untouched (painting clips, it
/// never fails).
pub open spec fn spec_set(
    cells: Seq<Cell>,
    w: int,
    h: int,
    x: int,
    y: int,
    c: Cell,
) -> Seq<Cell> {
    if 0 <= x < w && 0 <= y < h {
        cells.update(y * w + x, c)
    } else {
        cells
    }
}

proof fn lemma_idx_bound(w: int, h: int, x: int, y: int)
    requires
        0 <= x < w <= 0xffff,
        0 <= y < h <= 0xffff,
    ensures
        0 <= y * w + x < w * h,
        y * w + x < 0xffffffff,
{
    assert(0 <= y * w + x < w * h && w * h <= 0xffff * 0xffff) by (nonlinear_arith)
        requires
            0 <= x < w <= 0xffff,
            0 <= y < h <= 0xffff,
    ;
}

impl Buffer {
    pub open spec fn wf(self) -> bool {
        self.cells@.len() == self.width * self.height
    }

    pub open spec fn spec_cell(self, x: int, y: int) -> Cell {
        self.cells@[y * self.width + x]
    }

    /// A fresh frame of blank cells.
    pub fn new(width: u16, height: u16) -> (b: Buffer)
        ensures
            b.wf(),
            b.width == width,
            b.height == height,
            b.cells@ =~= Seq::new((width * height) as nat, |i: int| Cell::spec_blank()),
    {
        proof {
            assert(width * height >= 0) by (nonlinear_arith)
                requires
                    width as int >= 0,
                    height as int >= 0,
            ;
            assert(width * height <= 0xffff * 0xffff) by (nonlinear_arith)
                requires
                    0 <= width as int <= 0xffff,
                    0 <= height as int <= 0xffff,
            ;
        }
        let n: usize = (width as usize) * (height as usize);
        let mut cells: Vec<Cell> = Vec::new();
        let mut i: usize = 0;
        while i < n
            invariant
                0 <= i <= n,
                cells@.len() == i,
                forall|j: int| 0 <= j < i ==> cells@[j] == Cell::spec_blank(),
            decreases n - i,
        {
            cells.push(Cell::blank());
            i = i + 1;
        }
        Buffer { width, height, cells }
    }

    /// Write the cell at `(x, y)`; out-of-range writes clip to nothing.
    pub fn set(&mut self, x: u16, y: u16, c: Cell)
        requires
            old(self).wf(),
        ensures
            final(self).wf(),
            final(self).width == old(self).width,
            final(self).height == old(self).height,
            final(self).cells@ == spec_set(
                old(self).cells@,
                old(self).width as int,
                old(self).height as int,
                x as int,
                y as int,
                c,
            ),
    {
        if x < self.width && y < self.height {
            proof {
                lemma_idx_bound(self.width as int, self.height as int, x as int, y as int);
            }
            let idx: usize = (y as usize) * (self.width as usize) + (x as usize);
            self.cells.set(idx, c);
        }
    }

    /// Read the cell at `(x, y)`.
    pub fn get(&self, x: u16, y: u16) -> (c: Cell)
        requires
            self.wf(),
            x < self.width,
            y < self.height,
        ensures
            c == self.spec_cell(x as int, y as int),
    {
        proof {
            lemma_idx_bound(self.width as int, self.height as int, x as int, y as int);
        }
        let idx: usize = (y as usize) * (self.width as usize) + (x as usize);
        self.cells[idx]
    }
}

} // verus!
