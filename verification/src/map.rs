use vstd::prelude::*;
use crate::pos::Pos;

verus! {

/// One cell's terrain classification. `Empty` is unexcavated void, `Ground`
/// is walkable floor, and `Wall` blocks movement and sight.
#[derive(Clone, Copy, Debug, PartialEq, Eq, Structural)]
pub enum Tile {
    Empty,
    Wall,
    Ground,
}

/// A fixed-size grid of tiles, stored row-major. The view is the row-major
/// tile sequence; `wf` ties its length to the grid dimensions.
pub struct GameMap {
    pub width: u16,
    pub height: u16,
    pub tiles: Vec<Tile>,
}

/// Index of cell (x, y) in a row-major grid of the given width.
pub open spec fn grid_index(width: int, x: int, y: int) -> int {
    y * width + x
}

/// A row-major index stays inside the grid, and distinct in-bounds cells
/// have distinct indices.
pub proof fn lemma_grid_index(width: int, height: int, x: int, y: int)
    requires
        0 <= x < width,
        0 <= y < height,
    ensures
        0 <= grid_index(width, x, y) < width * height,
        forall|x2: int, y2: int|
            0 <= x2 < width && 0 <= y2 < height && (x2 != x || y2 != y)
                ==> grid_index(width, x2, y2) != grid_index(width, x, y),
{
    assert(0 <= y * width + x < width * height) by (nonlinear_arith)
        requires
            0 <= x < width,
            0 <= y < height,
    ;
    assert forall|x2: int, y2: int|
        0 <= x2 < width && 0 <= y2 < height && (x2 != x || y2 != y)
            implies grid_index(width, x2, y2) != grid_index(width, x, y) by {
        assert(y2 * width + x2 != y * width + x) by (nonlinear_arith)
            requires
                0 <= x < width,
                0 <= x2 < width,
                x2 != x || y2 != y,
        ;
    }
}

impl View for GameMap {
    type V = Seq<Tile>;

    closed spec fn view(&self) -> Seq<Tile> {
        self.tiles@
    }
}

impl GameMap {
    pub open spec fn wf(self) -> bool {
        self@.len() == self.width * self.height
    }

    pub open spec fn in_bounds(self, x: int, y: int) -> bool {
        0 <= x < self.width && 0 <= y < self.height
    }

    /// The tile at cell (x, y).
    pub open spec fn spec_tile(self, x: int, y: int) -> Tile
        recommends
            self.wf(),
            self.in_bounds(x, y),
    {
        self@[grid_index(self.width as int, x, y)]
    }

    /// A fresh map of the given size, all cells unexcavated.
    pub fn new(width: u16, height: u16) -> (r: Self)
        ensures
            r.wf(),
            r.width == width,
            r.height == height,
            forall|x: int, y: int| r.in_bounds(x, y) ==> r.spec_tile(x, y) == Tile::Empty,
    {
        proof {
            assert(width * height <= 0xFFFF * 0xFFFF) by (nonlinear_arith)
                requires
                    width <= 0xFFFF,
                    height <= 0xFFFF,
            ;
        }
        let n: usize = width as usize * height as usize;
        let mut tiles: Vec<Tile> = Vec::new();
        let mut i: usize = 0;
        while i < n
            invariant
                i <= n,
                tiles@.len() == i,
                forall|j: int| 0 <= j < i ==> tiles@[j] == Tile::Empty,
            decreases n - i,
        {
            tiles.push(Tile::Empty);
            i = i + 1;
        }
        let r = GameMap { width, height, tiles };
        proof {
            assert forall|x: int, y: int| r.in_bounds(x, y)
                implies r.spec_tile(x, y) == Tile::Empty by {
                lemma_grid_index(width as int, height as int, x, y);
            }
        }
        r
    }

    /// The row-major tile storage, for read-only scans.
    pub fn tiles(&self) -> (r: &Vec<Tile>)
        ensures
            r@ == self@,
    {
        &self.tiles
    }

    /// Read the tile under an in-bounds position.
    pub fn tile(&self, p: Pos) -> (r: Tile)
        requires
            self.wf(),
            self.in_bounds(p.x as int, p.y as int),
        ensures
            r == self.spec_tile(p.x as int, p.y as int),
    {
        let n: usize = self.tiles.len();
        proof {
            lemma_grid_index(self.width as int, self.height as int, p.x as int, p.y as int);
            assert(grid_index(self.width as int, p.x as int, p.y as int) < n);
        }
        self.tiles[p.y as usize * self.width as usize + p.x as usize]
    }

    /// Overwrite the tile under an in-bounds position, leaving every other
    /// cell as it was.
    pub fn set_tile(&mut self, p: Pos, t: Tile)
        requires
            old(self).wf(),
            old(self).in_bounds(p.x as int, p.y as int),
        ensures
            final(self).wf(),
            final(self).width == old(self).width,
            final(self).height == old(self).height,
            final(self)@ == old(self)@.update(
                grid_index(old(self).width as int, p.x as int, p.y as int),
                t,
            ),
            final(self).spec_tile(p.x as int, p.y as int) == t,
            forall|x: int, y: int|
                old(self).in_bounds(x, y) && (x != p.x as int || y != p.y as int)
                    ==> final(self).spec_tile(x, y) == old(self).spec_tile(x, y),
    {
        let n: usize = self.tiles.len();
        proof {
            lemma_grid_index(self.width as int, self.height as int, p.x as int, p.y as int);
            assert(grid_index(self.width as int, p.x as int, p.y as int) < n);
        }
        let idx: usize = p.y as usize * self.width as usize + p.x as usize;
        self.tiles.set(idx, t);
        proof {
            assert forall|x: int, y: int|
                old(self).in_bounds(x, y) && (x != p.x as int || y != p.y as int)
                    implies self.spec_tile(x, y) == old(self).spec_tile(x, y) by {
                lemma_grid_index(self.width as int, self.height as int, x, y);
                lemma_grid_index(self.width as int, self.height as int, p.x as int, p.y as int);
            }
        }
    }
}

} // verus!
