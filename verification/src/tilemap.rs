//! The world map: a flat row-major grid of tiles.
//!
//! Every tile starts as [`Tile::Ground`]; tiles can be replaced one at a
//! time. Coordinates handed to the accessors must lie inside the map.

use vstd::prelude::*;

verus! {

/// A position on the tile grid.
#[derive(Debug, Clone, Copy, PartialEq, Eq, Structural)]
pub struct TilePos {
    pub x: usize,
    pub y: usize,
}

/// What occupies one cell of the world map.
#[derive(Debug, Clone, Copy, PartialEq, Eq, Structural)]
pub enum Tile {
    Ground,
    Blocked,
    GoldMine,
    Forest,
}

/// A fixed `width x height` grid of tiles, row-major, origin top-left.
#[derive(Debug, Clone)]
pub struct TileMap {
    width: usize,
    height: usize,
    tiles: Vec<Tile>,
}

impl TileMap {
    /// The grid holds exactly one tile per cell.
    pub open spec fn wf(&self) -> bool {
        self.spec_tiles().len() == self.spec_width() * self.spec_height()
    }

    pub closed spec fn spec_width(&self) -> int {
        self.width as int
    }

    pub closed spec fn spec_height(&self) -> int {
        self.height as int
    }

    /// The tiles in row-major order.
    pub closed spec fn spec_tiles(&self) -> Seq<Tile> {
        self.tiles@
    }

    /// Builds a map of the given dimensions with every tile set to ground.
    pub fn new(width: usize, height: usize) -> (map: Self)
        requires
            width * height <= usize::MAX,
        ensures
            map.wf(),
            map.spec_width() == width,
            map.spec_height() == height,
            map.spec_tiles() == Seq::new((width * height) as nat, |i: int| Tile::Ground),
    {
        let n: usize = width * height;
        let mut tiles: Vec<Tile> = Vec::new();
        let mut i: usize = 0;
        while i < n
            invariant
                i <= n,
                tiles@.len() == i,
                forall|j: int| 0 <= j < i ==> tiles@[j] == Tile::Ground,
            decreases n - i,
        {
            tiles.push(Tile::Ground);
            i += 1;
        }
        let map = Self { width, height, tiles };
        proof {
            assert(map.spec_tiles() =~= Seq::new((width * height) as nat, |i: int| Tile::Ground));
        }
        map
    }

    /// Replaces the tile at `pos`, which must lie inside the map.
    pub fn set(&mut self, pos: TilePos, tile: Tile)
        requires
            old(self).wf(),
            pos.x < old(self).spec_width(),
            pos.y < old(self).spec_height(),
        ensures
            final(self).wf(),
            final(self).spec_width() == old(self).spec_width(),
            final(self).spec_height() == old(self).spec_height(),
            final(self).spec_tiles() == old(self).spec_tiles().update(
                pos.y * old(self).spec_width() + pos.x,
                tile,
            ),
    {
        let idx = self.idx(pos);
        self.tiles.set(idx, tile);
    }

    /// Reads the tile at `pos`, which must lie inside the map.
    pub fn get(&self, pos: TilePos) -> (tile: Tile)
        requires
            self.wf(),
            pos.x < self.spec_width(),
            pos.y < self.spec_height(),
        ensures
            tile == self.spec_tiles()[pos.y * self.spec_width() + pos.x],
    {
        let idx = self.idx(pos);
        self.tiles[idx]
    }

    /// Whether something may be built at `pos`: only bare ground can carry
    /// a building.
    pub fn is_buildable(&self, pos: TilePos) -> (b: bool)
        requires
            self.wf(),
            pos.x < self.spec_width(),
            pos.y < self.spec_height(),
        ensures
            b == (self.spec_tiles()[pos.y * self.spec_width() + pos.x] == Tile::Ground),
    {
        matches!(self.get(pos), Tile::Ground)
    }

    fn idx(&self, pos: TilePos) -> (idx: usize)
        requires
            self.wf(),
            pos.x < self.spec_width(),
            pos.y < self.spec_height(),
        ensures
            idx == pos.y * self.spec_width() + pos.x,
            idx < self.spec_tiles().len(),
    {
        let n = self.tiles.len();
        proof {
            assert(pos.y * self.spec_width() + pos.x < self.spec_height() * self.spec_width())
                by (nonlinear_arith)
                requires
                    pos.x < self.spec_width(),
                    pos.y < self.spec_height(),
            ;
            assert(self.spec_height() * self.spec_width() == self.spec_width() * self.spec_height())
                by (nonlinear_arith);
            assert(pos.y * self.spec_width() + pos.x < n);
        }
        pos.y * self.width + pos.x
    }
}

} // verus!
