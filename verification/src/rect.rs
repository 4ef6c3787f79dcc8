//! Axis-parallel rectangles of cells, given by two opposite corners.

use vstd::prelude::*;
use crate::point::Point;

verus! {

/// The cells from `(x1, y1)` to `(x2, y2)`, both corners included.
#[derive(Clone, Copy, Debug, PartialEq, Eq, Structural)]
pub struct Rect {
    pub x1: u32,
    pub y1: u32,
    pub x2: u32,
    pub y2: u32,
}

/// `|a - b|`.
pub open spec fn spec_distance(a: u32, b: u32) -> int {
    if a >= b {
        a - b
    } else {
        b - a
    }
}

impl Rect {
    /// The number of columns that the rectangle spans.
    pub open spec fn spec_width(self) -> int {
        spec_distance(self.x1, self.x2) + 1
    }

    /// The number of rows that the rectangle spans.
    pub open spec fn spec_height(self) -> int {
        spec_distance(self.y1, self.y2) + 1
    }

    /// Whether `other`, grown by `margin` on every side, overlaps this
    /// rectangle.
    pub open spec fn spec_intersects(self, other: Rect, margin: u32) -> bool {
        &&& other.x2 + margin >= self.x1
        &&& other.x1 - margin <= self.x2
        &&& other.y2 + margin >= self.y1
        &&& other.y1 - margin <= self.y2
    }

    /// The middle of the rectangle, rounded towards the first corner.
    pub open spec fn spec_center(self) -> Point {
        Point { x: ((self.x1 + self.x2) / 2) as i32, y: ((self.y1 + self.y2) / 2) as i32 }
    }

    /// The number of cells that `iter_xy` lists: none where a second corner
    /// lies before the first.
    pub open spec fn spec_cells(self) -> int {
        if self.x1 <= self.x2 && self.y1 <= self.y2 {
            (self.x2 - self.x1 + 1) * (self.y2 - self.y1 + 1)
        } else {
            0
        }
    }

    /// The cell number `i` in the row-by-row listing.
    pub open spec fn spec_cell(self, i: int) -> (u32, u32) {
        let w = self.x2 - self.x1 + 1;
        ((self.x1 + i % w) as u32, (self.y1 + i / w) as u32)
    }

    /// The rectangle with the corner `(x, y)` that is `w` cells wide and `h`
    /// cells high.
    pub fn new(x: u32, y: u32, w: u32, h: u32) -> (r: Rect)
        requires
            w > 0,
            h > 0,
            x + w <= u32::MAX,
            y + h <= u32::MAX,
        ensures
            r == (Rect { x1: x, y1: y, x2: (x + w - 1) as u32, y2: (y + h - 1) as u32 }),
            r.spec_width() == w,
            r.spec_height() == h,
    {
        Rect { x1: x, y1: y, x2: x + w - 1, y2: y + h - 1 }
    }

    pub fn width(&self) -> (w: u32)
        requires
            self.spec_width() <= u32::MAX,
        ensures
            w == self.spec_width(),
    {
        if self.x1 >= self.x2 {
            self.x1 - self.x2 + 1
        } else {
            self.x2 - self.x1 + 1
        }
    }

    pub fn height(&self) -> (h: u32)
        requires
            self.spec_height() <= u32::MAX,
        ensures
            h == self.spec_height(),
    {
        if self.y1 >= self.y2 {
            self.y1 - self.y2 + 1
        } else {
            self.y2 - self.y1 + 1
        }
    }

    /// Whether `other`, grown by `margin` on every side, overlaps this
    /// rectangle.
    pub fn intersects(&self, other: &Rect, margin: u32) -> (b: bool)
        ensures
            b == self.spec_intersects(*other, margin),
    {
        let m: i64 = margin as i64;
        other.x2 as i64 + m >= self.x1 as i64 && other.x1 as i64 - m <= self.x2 as i64
            && other.y2 as i64 + m >= self.y1 as i64 && other.y1 as i64 - m <= self.y2 as i64
    }

    /// The middle of the rectangle, rounded towards the first corner.
    pub fn center(&self) -> (c: Point)
        requires
            (self.x1 + self.x2) / 2 <= i32::MAX,
            (self.y1 + self.y2) / 2 <= i32::MAX,
        ensures
            c == self.spec_center(),
            c.x == (self.x1 + self.x2) / 2,
            c.y == (self.y1 + self.y2) / 2,
    {
        Point::new(
            ((self.x2 as u64 + self.x1 as u64) / 2) as i32,
            ((self.y2 as u64 + self.y1 as u64) / 2) as i32,
        )
    }

    /// The cells of the rectangle, row by row.
    pub fn iter_xy(&self) -> (cells: Vec<(u32, u32)>)
        requires
            self.spec_cells() <= usize::MAX,
        ensures
            cells@.len() == self.spec_cells(),
            forall|i: int| 0 <= i < cells@.len() ==> cells@[i] == self.spec_cell(i),
    {
        let mut cells: Vec<(u32, u32)> = Vec::new();
        if self.x1 > self.x2 || self.y1 > self.y2 {
            return cells;
        }
        let w: u64 = self.x2 as u64 - self.x1 as u64 + 1;
        let h: u64 = self.y2 as u64 - self.y1 as u64 + 1;
        let mut row: u64 = 0;
        while row < h
            invariant
                self.x1 <= self.x2,
                self.y1 <= self.y2,
                w == self.x2 - self.x1 + 1,
                h == self.y2 - self.y1 + 1,
                row <= h,
                w * h <= usize::MAX,
                cells@.len() == row * w,
                forall|i: int| 0 <= i < cells@.len() ==> cells@[i] == self.spec_cell(i),
            decreases h - row,
        {
            let mut col: u64 = 0;
            while col < w
                invariant
                    self.x1 <= self.x2,
                    self.y1 <= self.y2,
                    w == self.x2 - self.x1 + 1,
                    h == self.y2 - self.y1 + 1,
                    row < h,
                    col <= w,
                    w * h <= usize::MAX,
                    cells@.len() == row * w + col,
                    forall|i: int| 0 <= i < cells@.len() ==> cells@[i] == self.spec_cell(i),
                decreases w - col,
            {
                proof {
                    vstd::arithmetic::div_mod::lemma_fundamental_div_mod_converse(
                        row * w + col,
                        w as int,
                        row as int,
                        col as int,
                    );
                }
                cells.push(((self.x1 as u64 + col) as u32, (self.y1 as u64 + row) as u32));
                col = col + 1;
            }
            proof {
                assert((row + 1) * w == row * w + w) by (nonlinear_arith);
            }
            row = row + 1;
        }
        proof {
            assert(h * w == w * h) by (nonlinear_arith);
        }
        cells
    }
}

} // verus!
