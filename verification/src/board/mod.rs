//! The board: a rectangle of tiles, stored row by row.

use vstd::prelude::*;
use crate::bitgrid::{BitGrid, BitGridView};
use crate::point::Point;
use crate::rect::Rect;
use self::components::Tile;

pub mod components;

verus! {

/// A rectangular map of tiles. The tile of the cell `(x, y)` is stored at
/// `y * width + x`.
pub struct Board {
    pub width: u32,
    pub height: u32,
    pub tiles: Vec<Tile>,
    pub seen: BitGrid,
}

/// The mathematical content of a [`Board`].
pub struct BoardView {
    pub width: nat,
    pub height: nat,
    pub tiles: Seq<Tile>,
    pub seen: BitGridView,
}

impl BoardView {
    /// Both sides are at least 2 and the cells can be counted in 32 bits.
    pub open spec fn wf(self) -> bool {
        &&& self.width > 1
        &&& self.height > 1
        &&& self.width * self.height <= u32::MAX
    }

    /// The board is well formed and holds one tile for each cell.
    pub open spec fn filled(self) -> bool {
        &&& self.wf()
        &&& self.tiles.len() == self.width * self.height
    }

    /// Whether `(x, y)` names a cell of the board.
    pub open spec fn in_bounds_xy(self, x: int, y: int) -> bool {
        0 <= x < self.width && 0 <= y < self.height
    }

    /// Whether the point names a cell of the board.
    pub open spec fn contains(self, p: Point) -> bool {
        self.in_bounds_xy(p.x as int, p.y as int)
    }

    /// The position of the cell `(x, y)` in the row-major tile list.
    pub open spec fn index(self, x: int, y: int) -> int {
        y * self.width + x
    }

    /// The tile of the cell `(x, y)`.
    pub open spec fn tile_xy(self, x: int, y: int) -> Tile {
        self.tiles[self.index(x, y)]
    }

    /// The cells of the board as points, column by column: `(x, y)` stands
    /// at `x * height + y`.
    pub open spec fn points(self) -> Seq<Point> {
        Seq::new(
            self.width * self.height,
            |i: int| Point { x: (i / self.height as int) as i32, y: (i % self.height as int) as i32 },
        )
    }
}

impl View for Board {
    type V = BoardView;

    open spec fn view(&self) -> BoardView {
        BoardView {
            width: self.width as nat,
            height: self.height as nat,
            tiles: self.tiles@,
            seen: self.seen@,
        }
    }
}

impl Clone for Board {
    fn clone(&self) -> (b: Board)
        ensures
            b@ == self@,
    {
        let tiles = self.tiles.clone();
        assert(tiles@ =~= self.tiles@);
        Board { width: self.width, height: self.height, tiles, seen: self.seen.clone() }
    }
}

impl Default for Board {
    /// A 2-by-2 board that holds no tiles yet.
    fn default() -> (b: Board)
        ensures
            b@.wf(),
            b@.width == 2,
            b@.height == 2,
            b@.tiles == Seq::<Tile>::empty(),
            b@.seen.width == 0,
            b@.seen.height == 0,
    {
        Board { width: 2, height: 2, tiles: Vec::new(), seen: BitGrid::new(0, 0) }
    }
}

impl Board {
    /// Whether a board of these dimensions can be built.
    pub open spec fn spec_dims_fit(width: u32, height: u32) -> bool {
        &&& width > 1
        &&& height > 1
        &&& BitGrid::spec_dims_fit(width, height)
    }

    /// A board of walls: every cell is [`Tile::Wall`] and nothing is seen.
    pub fn new(depth: u32, width: u32, height: u32) -> (b: Board)
        requires
            Self::spec_dims_fit(width, height),
        ensures
            b@.filled(),
            b@.width == width,
            b@.height == height,
            b@.tiles == Seq::new((width * height) as nat, |i: int| Tile::Wall),
            b@.seen.wf(),
            b@.seen.width == width,
            b@.seen.height == height,
            b@.seen.bits == Seq::new((width * height) as nat, |i: int| false),
    {
        let n: usize = (width * height) as usize;
        let mut tiles: Vec<Tile> = Vec::new();
        let mut i: usize = 0;
        while i < n
            invariant
                i <= n,
                tiles@ == Seq::new(i as nat, |k: int| Tile::Wall),
            decreases n - i,
        {
            tiles.push(Tile::Wall);
            i = i + 1;
        }
        Board { width, height, tiles, seen: BitGrid::new(width, height) }
    }

    /// The tile of the cell `(x, y)`.
    pub fn get_tile_xy(&self, x: u32, y: u32) -> (tile: Tile)
        requires
            y * self@.width + x <= u32::MAX,
            self@.index(x as int, y as int) < self@.tiles.len(),
        ensures
            tile == self@.tile_xy(x as int, y as int),
    {
        self.tiles[self.xy_to_index(x, y)]
    }

    /// The tile number `i` in the row-major list.
    pub fn get_tile(&self, i: usize) -> (tile: Tile)
        requires
            i < self@.tiles.len(),
        ensures
            tile == self@.tiles[i as int],
    {
        self.tiles[i]
    }

    /// The row-major list of tiles.
    pub fn get_tiles(&self) -> (tiles: &Vec<Tile>)
        ensures
            tiles@ == self@.tiles,
    {
        &self.tiles
    }

    /// A copy of the row-major list of tiles.
    pub fn get_tiles_cloned(&self) -> (tiles: Vec<Tile>)
        ensures
            tiles@ == self@.tiles,
    {
        let tiles = self.tiles.clone();
        assert(tiles@ =~= self.tiles@);
        tiles
    }

    /// The row-major list of tiles, to be changed in place.
    pub fn get_tiles_mut(&mut self) -> (tiles: &mut Vec<Tile>)
        ensures
            tiles@ == old(self)@.tiles,
            final(self)@ == (BoardView { tiles: final(tiles)@, ..old(self)@ }),
    {
        &mut self.tiles
    }

    /// Sets the tile of the cell `(x, y)`, which must be a cell of the
    /// board.
    pub fn set_tile_xy(&mut self, x: u32, y: u32, tile: Tile)
        requires
            old(self)@.filled(),
            old(self)@.in_bounds_xy(x as int, y as int),
        ensures
            final(self)@ == (BoardView {
                tiles: old(self)@.tiles.update(old(self)@.index(x as int, y as int), tile),
                ..old(self)@
            }),
            0 <= old(self)@.index(x as int, y as int) < old(self)@.tiles.len(),
            final(self)@.filled(),
    {
        proof {
            lemma_row_cell(x as int, y as int, self.width as int, self.height as int);
        }
        let i = self.xy_to_index(x, y);
        self.tiles[i] = tile;
    }

    /// Sets the tile number `i` in the row-major list.
    pub fn set_tile(&mut self, i: usize, tile: Tile)
        requires
            old(self)@.filled(),
            i < old(self)@.tiles.len(),
        ensures
            final(self)@ == (BoardView { tiles: old(self)@.tiles.update(i as int, tile), ..old(self)@ }),
            final(self)@.filled(),
    {
        self.tiles[i] = tile;
    }

    /// Replaces the tiles by a list that holds one tile for each cell.
    pub fn set_all_tiles(&mut self, tiles: Vec<Tile>)
        requires
            tiles@.len() == old(self)@.width * old(self)@.height,
        ensures
            final(self)@ == (BoardView { tiles: tiles@, ..old(self)@ }),
    {
        self.tiles = tiles;
    }

    /// Sets every tile of the rectangle, which must lie on the board.
    pub fn set_rect(&mut self, rect: &Rect, tile: Tile)
        requires
            old(self)@.filled(),
            rect.x1 <= rect.x2 < old(self)@.width,
            rect.y1 <= rect.y2 < old(self)@.height,
        ensures
            final(self)@.width == old(self)@.width,
            final(self)@.height == old(self)@.height,
            final(self)@.seen == old(self)@.seen,
            final(self)@.filled(),
            final(self)@.tiles.len() == old(self)@.tiles.len(),
            forall|x: int, y: int|
                0 <= x < old(self)@.width && 0 <= y < old(self)@.height
                    ==> #[trigger] final(self)@.tile_xy(x, y) == (if rect.x1 <= x <= rect.x2
                    && rect.y1 <= y <= rect.y2 {
                    tile
                } else {
                    old(self)@.tile_xy(x, y)
                }),
    {
        let ghost start = self@;
        let x_end: u64 = rect.x2 as u64 + 1;
        let y_end: u64 = rect.y2 as u64 + 1;
        let mut y: u64 = rect.y1 as u64;
        while y < y_end
            invariant
                self@.filled(),
                self@.width == start.width,
                self@.height == start.height,
                self@.seen == start.seen,
                self@.tiles.len() == start.tiles.len(),
                rect.x1 <= rect.x2 < start.width,
                rect.y1 <= rect.y2 < start.height,
                x_end == rect.x2 + 1,
                y_end == rect.y2 + 1,
                rect.y1 <= y <= y_end,
                forall|cx: int, cy: int|
                    0 <= cx < start.width && 0 <= cy < start.height ==> #[trigger] self@.tile_xy(
                        cx,
                        cy,
                    ) == (if rect.x1 <= cx <= rect.x2 && rect.y1 <= cy < y {
                        tile
                    } else {
                        start.tile_xy(cx, cy)
                    }),
            decreases y_end - y,
        {
            let mut x: u64 = rect.x1 as u64;
            while x < x_end
                invariant
                    self@.filled(),
                    self@.width == start.width,
                    self@.height == start.height,
                    self@.seen == start.seen,
                    self@.tiles.len() == start.tiles.len(),
                    rect.x1 <= rect.x2 < start.width,
                    rect.y1 <= y < y_end,
                    rect.y2 < start.height,
                    x_end == rect.x2 + 1,
                    y_end == rect.y2 + 1,
                    rect.x1 <= x <= x_end,
                    forall|cx: int, cy: int|
                        0 <= cx < start.width && 0 <= cy < start.height ==> #[trigger] self@.tile_xy(
                            cx,
                            cy,
                        ) == (if (rect.x1 <= cx <= rect.x2 && rect.y1 <= cy < y) || (cy == y
                            && rect.x1 <= cx < x) {
                            tile
                        } else {
                            start.tile_xy(cx, cy)
                        }),
                decreases x_end - x,
            {
                let ghost before = self@;
                self.set_tile_xy(x as u32, y as u32, tile);
                proof {
                    assert forall|cx: int, cy: int|
                        0 <= cx < start.width && 0 <= cy < start.height implies #[trigger] self@.tile_xy(
                        cx,
                        cy,
                    ) == (if (rect.x1 <= cx <= rect.x2 && rect.y1 <= cy < y) || (cy == y && rect.x1
                        <= cx < x + 1) {
                        tile
                    } else {
                        start.tile_xy(cx, cy)
                    }) by {
                        lemma_row_cell(cx, cy, start.width as int, start.height as int);
                        lemma_row_cell(x as int, y as int, start.width as int, start.height as int);
                        lemma_row_cells_differ(cx, cy, x as int, y as int, start.width as int);
                        assert(before.tile_xy(cx, cy) == (if (rect.x1 <= cx <= rect.x2 && rect.y1
                            <= cy < y) || (cy == y && rect.x1 <= cx < x) {
                            tile
                        } else {
                            start.tile_xy(cx, cy)
                        }));
                    }
                }
                x = x + 1;
            }
            y = y + 1;
        }
    }

    /// The position of the cell `(x, y)` in the row-major list of tiles.
    pub fn xy_to_index(&self, x: u32, y: u32) -> (i: usize)
        requires
            y * self@.width + x <= u32::MAX,
        ensures
            i == self@.index(x as int, y as int),
    {
        assert(0 <= y * self.width <= y * self.width + x) by (nonlinear_arith)
            requires
                0 <= y,
                0 <= self.width,
                0 <= x,
        ;
        (y * self.width + x) as usize
    }

    /// The cell whose tile stands at `i` in the row-major list. Only the low
    /// 32 bits of `i` count.
    pub fn index_to_xy(&self, i: usize) -> (cell: (u32, u32))
        requires
            self@.width > 0,
        ensures
            cell.0 == (i as u32) % (self@.width as u32),
            cell.1 == (i as u32) / (self@.width as u32),
    {
        let low: u32 = #[verifier::truncate] (i as u32);
        (low % self.width, low / self.width)
    }

    /// The least and the greatest `x` and `y` of a cell: `(0, 0, width - 1,
    /// height - 1)`.
    pub fn bounds(&self) -> (b: (u32, u32, u32, u32))
        requires
            self@.width > 0,
            self@.height > 0,
        ensures
            b == (0u32, 0u32, (self@.width - 1) as u32, (self@.height - 1) as u32),
    {
        (0, 0, self.width - 1, self.height - 1)
    }

    /// Whether the low 32 bits of `i` are the position of a cell in the
    /// row-major list.
    pub fn in_bounds(&self, i: usize) -> (b: bool)
        requires
            self@.wf(),
        ensures
            b == ((i as u32) / (self@.width as u32) < self@.height),
    {
        let (x, y) = self.index_to_xy(i);
        assert(x < self.width);
        (y as u64) < self.height as u64
    }

    /// Whether both sides are at least 2 and the cells can be counted in 32
    /// bits.
    pub fn is_wf(&self) -> (b: bool)
        ensures
            b == self@.wf(),
    {
        let w = self.width as u64;
        let h = self.height as u64;
        assert(w * h <= 0xffff_ffff * 0xffff_ffff) by (nonlinear_arith)
            requires
                w <= 0xffff_ffff,
                h <= 0xffff_ffff,
        ;
        self.width > 1 && self.height > 1 && w * h <= u32::MAX as u64
    }

    /// Whether `(x, y)` names a cell of the board.
    pub fn in_bounds_xy(&self, x: i32, y: i32) -> (b: bool)
        ensures
            b == self@.in_bounds_xy(x as int, y as int),
    {
        x >= 0 && (x as i64) < self.width as i64 && y >= 0 && (y as i64) < self.height as i64
    }

    /// Every cell of the board as a point, column by column.
    pub fn iter_points(&self) -> (points: Vec<Point>)
        requires
            self@.wf(),
        ensures
            points@ == self@.points(),
    {
        let mut points: Vec<Point> = Vec::new();
        let mut x: u32 = 0;
        while x < self.width
            invariant
                self@.wf(),
                x <= self.width,
                points@.len() == x * self.height,
                forall|i: int| 0 <= i < points@.len() ==> points@[i] == self@.points()[i],
            decreases self.width - x,
        {
            let mut y: u32 = 0;
            while y < self.height
                invariant
                    self@.wf(),
                    x < self.width,
                    y <= self.height,
                    points@.len() == x * self.height + y,
                    forall|i: int| 0 <= i < points@.len() ==> points@[i] == self@.points()[i],
                decreases self.height - y,
            {
                proof {
                    lemma_column_cell(x as int, y as int, self.width as int, self.height as int);
                }
                points.push(Point { x: x as i32, y: y as i32 });
                y = y + 1;
            }
            proof {
                assert((x + 1) * self.height == x * self.height + self.height) by (nonlinear_arith);
            }
            x = x + 1;
        }
        proof {
            assert(points@ =~= self@.points());
        }
        points
    }
}

/// In a row-major listing, the cell `(x, y)` stands at `y * width + x`.
pub proof fn lemma_row_cell(x: int, y: int, width: int, height: int)
    requires
        0 <= x < width,
        0 <= y < height,
    ensures
        0 <= y * width + x < width * height,
        0 <= y * width,
{
    assert(y * width + x < width * height) by (nonlinear_arith)
        requires
            0 <= x < width,
            0 <= y < height,
    ;
    assert(0 <= y * width) by (nonlinear_arith)
        requires
            0 <= y,
            0 < width,
    ;
}

/// Different cells stand at different places of a row-major listing.
pub proof fn lemma_row_cells_differ(x: int, y: int, x2: int, y2: int, width: int)
    requires
        0 <= x < width,
        0 <= x2 < width,
        0 <= y,
        0 <= y2,
    ensures
        (y * width + x == y2 * width + x2) <==> (x == x2 && y == y2),
{
    if y * width + x == y2 * width + x2 {
        vstd::arithmetic::div_mod::lemma_fundamental_div_mod_converse(y * width + x, width, y, x);
        vstd::arithmetic::div_mod::lemma_fundamental_div_mod_converse(
            y2 * width + x2,
            width,
            y2,
            x2,
        );
    }
}

/// In a column-major listing, the cell `(x, y)` stands at `x * height + y`,
/// and that position leads back to the cell.
pub proof fn lemma_column_cell(x: int, y: int, width: int, height: int)
    requires
        0 <= x < width,
        0 <= y < height,
    ensures
        0 <= x * height + y < width * height,
        (x * height + y) / height == x,
        (x * height + y) % height == y,
{
    assert(x * height + y < width * height) by (nonlinear_arith)
        requires
            0 <= x < width,
            0 <= y < height,
    ;
    assert(0 <= x * height) by (nonlinear_arith)
        requires
            0 <= x,
            0 < height,
    ;
    vstd::arithmetic::div_mod::lemma_fundamental_div_mod_converse(x * height + y, height, x, y);
}

} // verus!
