use vstd::prelude::*;
use crate::items::OreKind;

verus! {

/// Depth band of a tile. Bedrock bounds the map and can never be broken.
#[derive(Clone, Copy, Debug, PartialEq, Eq, Hash, Structural)]
pub enum Layer {
    Dirt,
    Stone,
    Deep,
    Core,
    Bedrock,
}

/// One cell of the world.
#[derive(Clone, Copy, Debug, PartialEq, Eq, Structural)]
pub struct Tile {
    pub solid: bool,
    pub layer: Layer,
    pub ore: Option<OreKind>,
    /// Strikes accumulated so far; 0 on a fresh or broken tile.
    pub damage: u8,
}

/// The tile a fresh grid is filled with: solid dirt, no ore, undamaged.
pub open spec fn default_tile() -> Tile {
    Tile { solid: true, layer: Layer::Dirt, ore: None, damage: 0 }
}

impl Default for Tile {
    fn default() -> (t: Tile)
        ensures
            t == default_tile(),
    {
        Tile { solid: true, layer: Layer::Dirt, ore: None, damage: 0 }
    }
}

/// A `width` x `height` rectangle of tiles stored row by row.
#[derive(Clone, Debug)]
pub struct Grid {
    width: u32,
    height: u32,
    tiles: Vec<Tile>,
}

impl Grid {
    pub closed spec fn w(self) -> int {
        self.width as int
    }

    pub closed spec fn h(self) -> int {
        self.height as int
    }

    /// The tiles, row by row: tile (x, y) sits at `y * w + x`.
    pub closed spec fn cells(self) -> Seq<Tile> {
        self.tiles@
    }

    /// Both dimensions are positive and there is exactly one tile per cell.
    pub open spec fn wf(self) -> bool {
        &&& self.w() > 0
        &&& self.h() > 0
        &&& self.cells().len() == self.w() * self.h()
    }

    pub open spec fn in_grid(self, x: int, y: int) -> bool {
        0 <= x < self.w() && 0 <= y < self.h()
    }

    pub open spec fn index_of(self, x: int, y: int) -> int {
        y * self.w() + x
    }

    pub open spec fn tile_at(self, x: int, y: int) -> Tile {
        self.cells()[self.index_of(x, y)]
    }

    /// A grid filled with `default_tile()`.
    pub fn new(width: u32, height: u32) -> (g: Grid)
        requires
            width > 0,
            height > 0,
            width * height <= u32::MAX,
        ensures
            g.wf(),
            g.w() == width,
            g.h() == height,
            forall|i: int| 0 <= i < g.cells().len() ==> g.cells()[i] == default_tile(),
    {
        let n: u32 = width * height;
        let tiles: Vec<Tile> = vec![Tile::default(); n as usize];
        Grid { width, height, tiles }
    }

    /// A grid built from existing tile data laid out row by row.
    pub fn from_raw(width: u32, height: u32, tiles: Vec<Tile>) -> (g: Grid)
        requires
            width > 0,
            height > 0,
            width * height <= usize::MAX,
            tiles@.len() == width * height,
        ensures
            g.wf(),
            g.w() == width,
            g.h() == height,
            g.cells() == tiles@,
    {
        Grid { width, height, tiles }
    }

    pub fn width(&self) -> (w: u32)
        ensures
            w == self.w(),
    {
        self.width
    }

    pub fn height(&self) -> (h: u32)
        ensures
            h == self.h(),
    {
        self.height
    }

    pub fn in_bounds(&self, x: i32, y: i32) -> (b: bool)
        ensures
            b == self.in_grid(x as int, y as int),
    {
        x >= 0 && y >= 0 && (x as u32) < self.width && (y as u32) < self.height
    }

    pub proof fn lemma_index_in_range(self, x: int, y: int)
        requires
            self.wf(),
            self.in_grid(x, y),
        ensures
            0 <= self.index_of(x, y) < self.cells().len(),
            0 <= y * self.w() <= self.index_of(x, y),
    {
        assert(0 <= y * self.w()) by (nonlinear_arith)
            requires
                0 <= y,
                0 < self.w(),
        ;
        assert(y * self.w() + x < self.w() * self.h()) by (nonlinear_arith)
            requires
                0 <= x < self.w(),
                0 <= y < self.h(),
        ;
    }

    fn idx(&self, x: i32, y: i32) -> (i: usize)
        requires
            self.wf(),
            self.in_grid(x as int, y as int),
        ensures
            i == self.index_of(x as int, y as int),
            i < self.cells().len(),
    {
        let n = self.tiles.len();
        proof {
            self.lemma_index_in_range(x as int, y as int);
            assert(n == self.cells().len());
        }
        let row: usize = (y as usize) * (self.width as usize);
        row + (x as usize)
    }

    pub fn get(&self, x: i32, y: i32) -> (r: Option<&Tile>)
        requires
            self.wf(),
        ensures
            match r {
                Some(t) => self.in_grid(x as int, y as int) && *t == self.tile_at(x as int, y as int),
                None => !self.in_grid(x as int, y as int),
            },
    {
        if !self.in_bounds(x, y) {
            return None;
        }
        Some(&self.tiles[self.idx(x, y)])
    }

    pub fn get_mut(&mut self, x: i32, y: i32) -> (r: Option<&mut Tile>)
        requires
            old(self).wf(),
        ensures
            final(self).w() == old(self).w(),
            final(self).h() == old(self).h(),
            final(self).wf(),
            r is Some ==> {
                &&& old(self).in_grid(x as int, y as int)
                &&& *(r->0) == old(self).tile_at(x as int, y as int)
                &&& final(self).cells() == old(self).cells().update(
                    old(self).index_of(x as int, y as int),
                    *final(r->0),
                )
            },
            r is None ==> {
                &&& !old(self).in_grid(x as int, y as int)
                &&& final(self).cells() == old(self).cells()
            },
    {
        if !self.in_bounds(x, y) {
            return None;
        }
        let i = self.idx(x, y);
        Some(&mut self.tiles[i])
    }

    pub fn set(&mut self, x: i32, y: i32, t: Tile)
        requires
            old(self).wf(),
            old(self).in_grid(x as int, y as int),
        ensures
            final(self).wf(),
            final(self).w() == old(self).w(),
            final(self).h() == old(self).h(),
            final(self).cells() == old(self).cells().update(old(self).index_of(x as int, y as int), t),
    {
        let i = self.idx(x, y);
        self.tiles.set(i, t);
    }
}

/// Distinct in-grid cells have distinct storage indices.
pub proof fn lemma_index_of_injective(g: Grid, x1: int, y1: int, x2: int, y2: int)
    requires
        g.wf(),
        g.in_grid(x1, y1),
        g.in_grid(x2, y2),
        (x1, y1) != (x2, y2),
    ensures
        g.index_of(x1, y1) != g.index_of(x2, y2),
{
    let w = g.w();
    if y1 < y2 {
        assert(y1 * w + w <= y2 * w) by (nonlinear_arith)
            requires
                y1 < y2,
                w > 0,
        ;
    } else if y2 < y1 {
        assert(y2 * w + w <= y1 * w) by (nonlinear_arith)
            requires
                y2 < y1,
                w > 0,
        ;
    }
}

/// Reading a cell after writing the tile at (x, y): the written tile at
/// (x, y), the earlier tile everywhere else.
pub proof fn lemma_tile_at_update(before: Grid, after: Grid, x: int, y: int, t: Tile, qx: int, qy: int)
    requires
        before.wf(),
        before.in_grid(x, y),
        before.in_grid(qx, qy),
        after.w() == before.w(),
        after.h() == before.h(),
        after.cells() == before.cells().update(before.index_of(x, y), t),
    ensures
        after.wf(),
        after.tile_at(qx, qy) == if qx == x && qy == y { t } else { before.tile_at(qx, qy) },
{
    before.lemma_index_in_range(x, y);
    before.lemma_index_in_range(qx, qy);
    if qx != x || qy != y {
        lemma_index_of_injective(before, x, y, qx, qy);
    }
}

} // verus!
