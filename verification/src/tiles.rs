//! Tiles and levels, and the carving of floor out of solid rock.

use vstd::prelude::*;

verus! {

/// One cell of a dungeon level.
///
/// A tile that blocks sight is drawn as a wall even when it can be walked
/// on. `explored` records that the player has seen the tile at least once.
#[derive(Clone, Copy, Debug, PartialEq, Eq, Structural)]
pub struct Tile {
    pub blocked: bool,
    pub block_sight: bool,
    pub explored: bool,
}

impl Tile {
    /// The floor tile: walkable, transparent, not yet seen.
    pub open spec fn spec_empty() -> Tile {
        Tile { blocked: false, block_sight: false, explored: false }
    }

    /// The wall tile: solid, opaque, not yet seen.
    pub open spec fn spec_wall() -> Tile {
        Tile { blocked: true, block_sight: true, explored: false }
    }

    /// A floor tile.
    #[verifier::when_used_as_spec(spec_empty)]
    pub fn empty() -> (t: Tile)
        ensures
            t == Tile::spec_empty(),
    {
        Tile { blocked: false, block_sight: false, explored: false }
    }

    /// A wall tile.
    #[verifier::when_used_as_spec(spec_wall)]
    pub fn wall() -> (t: Tile)
        ensures
            t == Tile::spec_wall(),
    {
        Tile { blocked: true, block_sight: true, explored: false }
    }
}

/// A dungeon level: columns of tiles, indexed `[x][y]`.
pub type TileMap = Vec<Vec<Tile>>;

/// The level as a grid of tiles: `grid(m)[x][y]` is the tile at `(x, y)`.
pub open spec fn grid(map: Seq<Vec<Tile>>) -> Seq<Seq<Tile>> {
    Seq::new(map.len(), |x: int| map[x]@)
}

/// Whether `(x, y)` names a tile of the grid.
pub open spec fn in_grid(g: Seq<Seq<Tile>>, x: int, y: int) -> bool {
    0 <= x < g.len() && 0 <= y < g[x].len()
}

/// Whether the grid has exactly `width` columns of `height` tiles each.
pub open spec fn has_size(g: Seq<Seq<Tile>>, width: int, height: int) -> bool {
    &&& g.len() == width
    &&& forall|x: int| 0 <= x < width ==> (#[trigger] g[x]).len() == height
}

/// Whether terrain forbids entering `(x, y)`: the tile is solid, or there is
/// no such tile.
pub open spec fn terrain_blocked(g: Seq<Seq<Tile>>, x: int, y: int) -> bool {
    in_grid(g, x, y) ==> g[x][y].blocked
}

/// Whether all columns of the grid have the same height.
pub open spec fn rectangular(g: Seq<Seq<Tile>>) -> bool {
    forall|x: int| 0 <= x < g.len() ==> (#[trigger] g[x]).len() == g[0].len()
}

/// Whether `(x, y)` is a tile of the grid, and that tile is plain floor.
pub open spec fn is_floor(g: Seq<Seq<Tile>>, x: int, y: int) -> bool {
    in_grid(g, x, y) && g[x][y] == Tile::empty()
}

/// The grid with floor laid on every tile whose column is in `x_lo..=x_hi`
/// and whose row is in `y_lo..=y_hi`; all other tiles as they were.
pub open spec fn dug(g: Seq<Seq<Tile>>, x_lo: int, x_hi: int, y_lo: int, y_hi: int) -> Seq<
    Seq<Tile>,
> {
    Seq::new(
        g.len(),
        |x: int|
            Seq::new(
                g[x].len(),
                |y: int|
                    if x_lo <= x <= x_hi && y_lo <= y <= y_hi {
                        Tile::empty()
                    } else {
                        g[x][y]
                    },
            ),
    )
}

/// Lays floor on every tile whose column is in `x_lo..=x_hi` and whose row
/// is in `y_lo..=y_hi`.
pub fn dig(map: &mut TileMap, x_lo: usize, x_hi: usize, y_lo: usize, y_hi: usize)
    requires
        rectangular(grid(old(map)@)),
        x_lo <= x_hi < old(map)@.len(),
        y_lo <= y_hi < grid(old(map)@)[0].len(),
    ensures
        grid(final(map)@) == dug(
            grid(old(map)@),
            x_lo as int,
            x_hi as int,
            y_lo as int,
            y_hi as int,
        ),
{
    let ghost before = grid(map@);
    let mut x: usize = x_lo;
    let width = map.len();
    let height = map[0].len();
    assert(x_hi < width && y_hi < height);
    assert(grid(map@) =~~= dug(before, x_lo as int, x_lo - 1, y_lo as int, y_hi as int));
    while x <= x_hi
        invariant
            x_lo <= x <= x_hi + 1,
            x_hi < before.len(),
            x_hi < usize::MAX,
            y_hi < usize::MAX,
            y_lo <= y_hi < before[0].len(),
            rectangular(before),
            grid(map@) == dug(before, x_lo as int, x - 1, y_lo as int, y_hi as int),
        decreases x_hi + 1 - x,
    {
        let ghost column_start = grid(map@);
        let mut y: usize = y_lo;
        assert(before[x as int].len() == before[0].len());
        assert(grid(map@) =~~= dug(column_start, x as int, x as int, y_lo as int, y_lo - 1));
        while y <= y_hi
            invariant
                y_lo <= y <= y_hi + 1,
                y_hi < usize::MAX,
                x < column_start.len(),
                column_start.len() == before.len(),
                y_hi < column_start[x as int].len(),
                grid(map@) == dug(column_start, x as int, x as int, y_lo as int, y - 1),
            decreases y_hi + 1 - y,
        {
            set_tile(map, x, y, Tile::empty());
            assert(grid(map@) =~~= dug(column_start, x as int, x as int, y_lo as int, y as int));
            y += 1;
        }
        assert(grid(map@) =~~= dug(before, x_lo as int, x as int, y_lo as int, y_hi as int));
        x += 1;
    }
}

/// Builds a level of the given size in which every tile is a wall.
pub fn solid_map(width: usize, height: usize) -> (map: TileMap)
    ensures
        has_size(grid(map@), width as int, height as int),
        forall|x: int, y: int|
            0 <= x < width && 0 <= y < height ==> #[trigger] grid(map@)[x][y] == Tile::wall(),
{
    let mut map: TileMap = Vec::new();
    let mut x: usize = 0;
    while x < width
        invariant
            x <= width,
            map@.len() == x,
            forall|i: int| 0 <= i < x ==> (#[trigger] map@[i])@.len() == height,
            forall|i: int, j: int|
                0 <= i < x && 0 <= j < height ==> #[trigger] map@[i]@[j] == Tile::wall(),
        decreases width - x,
    {
        let mut column: Vec<Tile> = Vec::new();
        let mut y: usize = 0;
        while y < height
            invariant
                y <= height,
                column@.len() == y,
                forall|j: int| 0 <= j < y ==> #[trigger] column@[j] == Tile::wall(),
            decreases height - y,
        {
            column.push(Tile::wall());
            y += 1;
        }
        map.push(column);
        x += 1;
    }
    map
}

/// Reads the tile at `(x, y)`, or reports that the grid has no such tile.
pub fn tile_at(map: &TileMap, x: i32, y: i32) -> (t: Option<Tile>)
    ensures
        in_grid(grid(map@), x as int, y as int) ==> t == Some(grid(map@)[x as int][y as int]),
        !in_grid(grid(map@), x as int, y as int) ==> t is None,
{
    if x < 0 || y < 0 {
        return None;
    }
    let ux: usize = x as usize;
    let uy: usize = y as usize;
    if ux >= map.len() {
        return None;
    }
    if uy >= map[ux].len() {
        return None;
    }
    Some(map[ux][uy])
}

/// Replaces the tile at `(x, y)` and leaves every other tile as it was.
pub fn set_tile(map: &mut TileMap, x: usize, y: usize, tile: Tile)
    requires
        in_grid(grid(old(map)@), x as int, y as int),
    ensures
        grid(final(map)@) == grid(old(map)@).update(
            x as int,
            grid(old(map)@)[x as int].update(y as int, tile),
        ),
{
    map[x][y] = tile;
    assert(grid(map@) =~= grid(old(map)@).update(
        x as int,
        grid(old(map)@)[x as int].update(y as int, tile),
    ));
}

} // verus!
