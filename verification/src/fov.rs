//! The field-of-view grid: what light passes, and what is in view.

use crate::tiles::{grid, Tile, TileMap};
use vstd::prelude::*;

verus! {

/// What the field-of-view computation knows of one tile: whether light
/// passes it, whether it can be walked on, and whether the last computation
/// found it visible.
#[derive(Clone, Copy, Debug, PartialEq, Eq, Structural)]
pub struct FovCell {
    pub transparent: bool,
    pub walkable: bool,
    pub in_fov: bool,
}

/// The field-of-view grid of a level, indexed `[x][y]` like the level.
///
/// The library fills in what light passes; whoever computes the field of
/// view reads that and writes back which tiles are visible.
#[derive(Debug, PartialEq, Eq)]
pub struct FovMap {
    pub cells: Vec<Vec<FovCell>>,
}

impl View for FovMap {
    type V = Seq<Seq<FovCell>>;

    open spec fn view(&self) -> Seq<Seq<FovCell>> {
        Seq::new(self.cells@.len(), |x: int| self.cells@[x]@)
    }
}

/// Whether `(x, y)` names a cell of the grid.
pub open spec fn in_fov_grid(f: Seq<Seq<FovCell>>, x: int, y: int) -> bool {
    0 <= x < f.len() && 0 <= y < f[x].len()
}

/// Whether the tile at `(x, y)` is in the field of view. A tile outside the
/// grid never is.
pub open spec fn visible(f: Seq<Seq<FovCell>>, x: int, y: int) -> bool {
    in_fov_grid(f, x, y) && f[x][y].in_fov
}

/// What the field-of-view computation is told of a tile before anything was
/// computed: light passes what does not block sight, and what is not solid
/// can be walked on.
pub open spec fn cell_of(tile: Tile) -> FovCell {
    FovCell { transparent: !tile.block_sight, walkable: !tile.blocked, in_fov: false }
}

/// Whether `f` describes the level `g` with nothing in view yet.
pub open spec fn describes(f: Seq<Seq<FovCell>>, g: Seq<Seq<Tile>>) -> bool {
    &&& f.len() == g.len()
    &&& forall|x: int| 0 <= x < g.len() ==> (#[trigger] f[x]).len() == g[x].len()
    &&& forall|x: int, y: int|
        0 <= x < g.len() && 0 <= y < g[x].len() ==> #[trigger] f[x][y] == cell_of(g[x][y])
}

impl FovMap {
    /// Whether the tile at `(x, y)` is in the field of view.
    pub fn is_in_fov(&self, x: i32, y: i32) -> (b: bool)
        ensures
            b == visible(self@, x as int, y as int),
    {
        if x < 0 || y < 0 {
            return false;
        }
        self.in_fov_at(x as usize, y as usize)
    }

    /// Whether the tile in column `x`, row `y` is in the field of view.
    pub fn in_fov_at(&self, x: usize, y: usize) -> (b: bool)
        ensures
            b == visible(self@, x as int, y as int),
    {
        if x >= self.cells.len() {
            return false;
        }
        if y >= self.cells[x].len() {
            return false;
        }
        self.cells[x][y].in_fov
    }

    /// Records whether the tile at `(x, y)` is in the field of view.
    pub fn set_in_fov(&mut self, x: usize, y: usize, in_fov: bool)
        requires
            in_fov_grid(old(self)@, x as int, y as int),
        ensures
            final(self)@ == old(self)@.update(
                x as int,
                old(self)@[x as int].update(
                    y as int,
                    FovCell { in_fov, ..old(self)@[x as int][y as int] },
                ),
            ),
    {
        let cell = self.cells[x][y];
        self.cells[x][y] = FovCell { in_fov, ..cell };
        assert(self@ =~~= old(self)@.update(
            x as int,
            old(self)@[x as int].update(
                y as int,
                FovCell { in_fov, ..old(self)@[x as int][y as int] },
            ),
        ));
    }

    /// The number of columns of the grid.
    pub fn width(&self) -> (w: usize)
        ensures
            w == self@.len(),
    {
        self.cells.len()
    }

    /// The number of cells in column `x`.
    pub fn height(&self, x: usize) -> (h: usize)
        requires
            x < self@.len(),
        ensures
            h == self@[x as int].len(),
    {
        self.cells[x].len()
    }

    /// What is known of the tile at `(x, y)`.
    pub fn cell(&self, x: usize, y: usize) -> (c: FovCell)
        requires
            in_fov_grid(self@, x as int, y as int),
        ensures
            c == self@[x as int][y as int],
    {
        self.cells[x][y]
    }
}

/// Sets up the field-of-view grid for a level: light passes every tile that
/// does not block sight, every tile that is not solid can be walked on, and
/// nothing is in view yet.
pub fn initialise_fov(map: &TileMap) -> (fov: FovMap)
    ensures
        describes(fov@, grid(map@)),
{
    let mut cells: Vec<Vec<FovCell>> = Vec::new();
    let mut x: usize = 0;
    while x < map.len()
        invariant
            x <= map@.len(),
            cells@.len() == x,
            forall|i: int| 0 <= i < x ==> (#[trigger] cells@[i])@.len() == map@[i]@.len(),
            forall|i: int, j: int|
                0 <= i < x && 0 <= j < map@[i]@.len() ==> #[trigger] cells@[i]@[j] == cell_of(
                    map@[i]@[j],
                ),
        decreases map@.len() - x,
    {
        let mut column: Vec<FovCell> = Vec::new();
        let mut y: usize = 0;
        while y < map[x].len()
            invariant
                x < map@.len(),
                y <= map@[x as int]@.len(),
                column@.len() == y,
                forall|j: int| 0 <= j < y ==> #[trigger] column@[j] == cell_of(map@[x as int]@[j]),
            decreases map@[x as int]@.len() - y,
        {
            let tile = map[x][y];
            column.push(
                FovCell { transparent: !tile.block_sight, walkable: !tile.blocked, in_fov: false },
            );
            y += 1;
        }
        cells.push(column);
        x += 1;
    }
    FovMap { cells }
}

} // verus!
