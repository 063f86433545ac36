//! The tile grid.
use vstd::prelude::*;

verus! {

#[derive(Clone, Copy, Debug, PartialEq, Eq, Structural)]
pub enum Tile {
    Empty,
    Wall,
    Platform,
    Ladder,
    JumpPad,
}

/// A grid of tiles, `tiles[x][y]`, with the origin at the bottom left.
#[derive(Clone, Debug)]
pub struct Level {
    pub tiles: Vec<Vec<Tile>>,
}

/// Grids are limited so that coordinates and sums of a few of them fit in any
/// integer type used here.
pub const MAX_SIDE: usize = 0x10000;

impl Level {
    /// Not empty, every column of the same height, and both sides at most
    /// `MAX_SIDE`.
    pub open spec fn wf(&self) -> bool {
        &&& 0 < self.tiles@.len() <= MAX_SIDE
        &&& 0 < self.tiles@[0]@.len() <= MAX_SIDE
        &&& forall|x: int|
            0 <= x < self.tiles@.len() ==> #[trigger] self.tiles@[x]@.len() == self.tiles@[0]@.len()
    }

    pub open spec fn spec_width(&self) -> int {
        self.tiles@.len() as int
    }

    pub open spec fn spec_height(&self) -> int {
        self.tiles@[0]@.len() as int
    }

    pub open spec fn in_grid(&self, x: int, y: int) -> bool {
        0 <= x < self.spec_width() && 0 <= y < self.spec_height()
    }

    /// The tile at `(x, y)`; outside the grid everything is wall.
    pub open spec fn tile(&self, x: int, y: int) -> Tile {
        if self.in_grid(x, y) {
            self.tiles@[x]@[y]
        } else {
            Tile::Wall
        }
    }

    pub fn width(&self) -> (r: usize)
        ensures
            r == self.spec_width(),
    {
        self.tiles.len()
    }

    pub fn height(&self) -> (r: usize)
        requires
            self.tiles@.len() > 0,
        ensures
            r == self.spec_height(),
    {
        self.tiles[0].len()
    }

    pub fn tile_at(&self, x: isize, y: isize) -> (r: Tile)
        requires
            self.wf(),
        ensures
            r == self.tile(x as int, y as int),
    {
        if x < 0 || y < 0 || x as usize >= self.tiles.len() {
            return Tile::Wall;
        }
        let column = &self.tiles[x as usize];
        if y as usize >= column.len() {
            return Tile::Wall;
        }
        column[y as usize]
    }
}

} // verus!
