//! What a frame shows: which tiles count as explored, in which colour a
//! tile is drawn, and which entities are drawn in which order.

use crate::colors::{dark_ground, dark_wall, light_ground, light_wall, Color};
use crate::fov::{visible, FovCell, FovMap};
use crate::objects::game::{Game, GameView};
use crate::objects::object::{world, Object, ObjectView};
use crate::tiles::{grid, in_grid, tile_at, Tile, TileMap};
use vstd::prelude::*;
use vstd::string::*;

verus! {

/// Whether the field of view has to be computed anew: the player no longer
/// stands where the last frame saw them.
pub fn fov_recompute_needed(previous_position: (i32, i32), player: &Object) -> (needed: bool)
    ensures
        needed == (previous_position != (player@.x, player@.y)),
{
    previous_position.0 != player.x || previous_position.1 != player.y
}

/// The colour in which a tile is drawn: lit inside the field of view, dark
/// outside; as a wall if it blocks sight, as ground if it does not.
pub open spec fn tile_shade(visible: bool, wall: bool) -> Color {
    if visible {
        if wall {
            light_wall()
        } else {
            light_ground()
        }
    } else {
        if wall {
            dark_wall()
        } else {
            dark_ground()
        }
    }
}

/// The colour in which a tile is drawn.
pub fn tile_color(visible: bool, wall: bool) -> (c: Color)
    ensures
        c == tile_shade(visible, wall),
{
    match (visible, wall) {
        (false, true) => dark_wall(),
        (false, false) => dark_ground(),
        (true, true) => light_wall(),
        (true, false) => light_ground(),
    }
}

/// The level after the player has looked around: every tile in the field of
/// view is explored, and nothing else about any tile has changed.
pub open spec fn seen(g: Seq<Seq<Tile>>, f: Seq<Seq<FovCell>>) -> Seq<Seq<Tile>> {
    Seq::new(
        g.len(),
        |x: int|
            Seq::new(
                g[x].len(),
                |y: int| Tile { explored: g[x][y].explored || visible(f, x, y), ..g[x][y] },
            ),
    )
}

/// Marks every tile in the field of view as explored.
///
/// A tile that was explored stays explored; no tile's other properties
/// change.
pub fn mark_explored(map: &mut TileMap, fov: &FovMap)
    ensures
        grid(final(map)@) == seen(grid(old(map)@), fov@),
{
    let ghost before = grid(map@);
    let mut x: usize = 0;
    while x < map.len()
        invariant
            x <= map@.len(),
            map@.len() == before.len(),
            forall|i: int| 0 <= i < before.len() ==> (#[trigger] map@[i])@.len() == before[i].len(),
            forall|i: int, j: int|
                0 <= i < x && 0 <= j < before[i].len() ==> #[trigger] map@[i]@[j] == seen(
                    before,
                    fov@,
                )[i][j],
            forall|i: int, j: int|
                x <= i < before.len() && 0 <= j < before[i].len() ==> #[trigger] map@[i]@[j]
                    == before[i][j],
        decreases map@.len() - x,
    {
        let mut y: usize = 0;
        while y < map[x].len()
            invariant
                x < map@.len(),
                y <= map@[x as int]@.len(),
                map@.len() == before.len(),
                forall|i: int|
                    0 <= i < before.len() ==> (#[trigger] map@[i])@.len() == before[i].len(),
                forall|i: int, j: int|
                    0 <= i < x && 0 <= j < before[i].len() ==> #[trigger] map@[i]@[j] == seen(
                        before,
                        fov@,
                    )[i][j],
                forall|j: int|
                    0 <= j < y ==> #[trigger] map@[x as int]@[j] == seen(before, fov@)[x as int][j],
                forall|j: int|
                    y <= j < before[x as int].len() ==> #[trigger] map@[x as int]@[j]
                        == before[x as int][j],
                forall|i: int, j: int|
                    x < i < before.len() && 0 <= j < before[i].len() ==> #[trigger] map@[i]@[j]
                        == before[i][j],
            decreases map@[x as int]@.len() - y,
        {
            if fov.in_fov_at(x, y) {
                let tile = map[x][y];
                map[x][y] = Tile { explored: true, ..tile };
            }
            y += 1;
        }
        x += 1;
    }
    assert(grid(map@) =~~= seen(before, fov@));
}

/// Exploring forgets nothing and alters no terrain: a tile that was explored
/// before the player looked around is explored afterwards, every tile in
/// view is explored, and every tile blocks movement and sight as before.
pub proof fn lemma_explored_is_monotonic(g: Seq<Seq<Tile>>, f: Seq<Seq<FovCell>>, x: int, y: int)
    requires
        in_grid(g, x, y),
    ensures
        in_grid(seen(g, f), x, y),
        g[x][y].explored ==> seen(g, f)[x][y].explored,
        visible(f, x, y) ==> seen(g, f)[x][y].explored,
        seen(g, f)[x][y].explored ==> g[x][y].explored || visible(f, x, y),
        seen(g, f)[x][y].blocked == g[x][y].blocked,
        seen(g, f)[x][y].block_sight == g[x][y].block_sight,
{
}

/// Looking around twice with the same field of view changes no more than
/// looking around once.
pub proof fn lemma_seen_twice(g: Seq<Seq<Tile>>, f: Seq<Seq<FovCell>>)
    ensures
        seen(seen(g, f), f) == seen(g, f),
{
    assert(seen(seen(g, f), f) =~~= seen(g, f));
}

/// Whether an entity is drawn: it is in the field of view, or it is one that
/// stays on display and its tile has been explored.
pub open spec fn shown(o: ObjectView, g: Seq<Seq<Tile>>, f: Seq<Seq<FovCell>>) -> bool {
    visible(f, o.x as int, o.y as int) || (o.always_visible && in_grid(g, o.x as int, o.y as int)
        && g[o.x as int][o.y as int].explored)
}

/// The positions, in ascending order, of those among the first `upto`
/// entities that are drawn and that block movement, if `blocks`, or do not,
/// if not.
pub open spec fn shown_layer(
    objects: Seq<ObjectView>,
    g: Seq<Seq<Tile>>,
    f: Seq<Seq<FovCell>>,
    blocks: bool,
    upto: nat,
) -> Seq<usize>
    decreases upto,
{
    if upto == 0 {
        Seq::empty()
    } else {
        let rest = shown_layer(objects, g, f, blocks, (upto - 1) as nat);
        if shown(objects[upto - 1], g, f) && objects[upto - 1].blocks == blocks {
            rest.push((upto - 1) as usize)
        } else {
            rest
        }
    }
}

/// The positions of the entities that are drawn, in drawing order: first
/// those that do not block movement, then those that do, so that an actor is
/// drawn over what lies under it; within each group in ascending order.
pub open spec fn drawing_order(
    objects: Seq<ObjectView>,
    g: Seq<Seq<Tile>>,
    f: Seq<Seq<FovCell>>,
) -> Seq<usize> {
    shown_layer(objects, g, f, false, objects.len()) + shown_layer(
        objects,
        g,
        f,
        true,
        objects.len(),
    )
}

/// Whether an entity is drawn.
pub fn is_shown(object: &Object, map: &TileMap, fov: &FovMap) -> (b: bool)
    ensures
        b == shown(object@, grid(map@), fov@),
{
    if fov.is_in_fov(object.x, object.y) {
        return true;
    }
    if !object.always_visible {
        return false;
    }
    match tile_at(map, object.x, object.y) {
        Some(tile) => tile.explored,
        None => false,
    }
}

/// Appends the drawn entities of one layer to `order`.
fn push_layer(
    order: &mut Vec<usize>,
    objects: &Vec<Object>,
    map: &TileMap,
    fov: &FovMap,
    blocks: bool,
)
    ensures
        final(order)@ == old(order)@ + shown_layer(
            world(objects@),
            grid(map@),
            fov@,
            blocks,
            objects@.len(),
        ),
{
    let ghost all = world(objects@);
    let mut i: usize = 0;
    assert(order@ =~= old(order)@ + shown_layer(all, grid(map@), fov@, blocks, 0));
    while i < objects.len()
        invariant
            i <= objects@.len(),
            all == world(objects@),
            order@ == old(order)@ + shown_layer(all, grid(map@), fov@, blocks, i as nat),
        decreases objects@.len() - i,
    {
        if objects[i].blocks == blocks && is_shown(&objects[i], map, fov) {
            order.push(i);
        }
        assert(order@ =~= old(order)@ + shown_layer(all, grid(map@), fov@, blocks, (i + 1) as nat));
        i += 1;
    }
}

/// Lists the entities to draw, in drawing order.
pub fn draw_order(objects: &Vec<Object>, map: &TileMap, fov: &FovMap) -> (order: Vec<usize>)
    ensures
        order@ == drawing_order(world(objects@), grid(map@), fov@),
{
    let mut order: Vec<usize> = Vec::new();
    push_layer(&mut order, objects, map, fov, false);
    push_layer(&mut order, objects, map, fov, true);
    assert(order@ =~= drawing_order(world(objects@), grid(map@), fov@));
    order
}

/// Prepares a frame: marks every tile in the field of view as explored, and
/// lists the entities to draw on the level as it is then, in drawing order.
pub fn render_all(fov: &FovMap, game: &mut Game, objects: &Vec<Object>) -> (order: Vec<usize>)
    ensures
        final(game)@ == (GameView { map: seen(old(game)@.map, fov@), ..old(game)@ }),
        order@ == drawing_order(world(objects@), seen(old(game)@.map, fov@), fov@),
{
    mark_explored(&mut game.map, fov);
    draw_order(objects, &game.map, fov)
}

/// Whether an entity stands on `(x, y)` in the field of view.
pub open spec fn in_sight_at(o: ObjectView, f: Seq<Seq<FovCell>>, x: int, y: int) -> bool {
    o.x == x && o.y == y && visible(f, x, y)
}

/// The names of those among the first `upto` entities that stand on
/// `(x, y)` in the field of view, separated by a comma and a space.
pub open spec fn names_in_sight(
    objects: Seq<ObjectView>,
    f: Seq<Seq<FovCell>>,
    x: int,
    y: int,
    upto: nat,
) -> Seq<char>
    decreases upto,
{
    if upto == 0 {
        Seq::empty()
    } else {
        let rest = names_in_sight(objects, f, x, y, (upto - 1) as nat);
        if in_sight_at(objects[upto - 1], f, x, y) {
            if any_in_sight(objects, f, x, y, (upto - 1) as nat) {
                rest + ", "@ + objects[upto - 1].name
            } else {
                objects[upto - 1].name
            }
        } else {
            rest
        }
    }
}

/// Whether one of the first `upto` entities stands on `(x, y)` in the field
/// of view.
pub open spec fn any_in_sight(
    objects: Seq<ObjectView>,
    f: Seq<Seq<FovCell>>,
    x: int,
    y: int,
    upto: nat,
) -> bool {
    exists|i: int| 0 <= i < upto && in_sight_at(#[trigger] objects[i], f, x, y)
}

/// Names the entities that stand on `(x, y)` in the field of view, in
/// order, separated by a comma and a space.
pub fn names_at(x: i32, y: i32, objects: &Vec<Object>, fov: &FovMap) -> (names: String)
    ensures
        names@ == names_in_sight(world(objects@), fov@, x as int, y as int, objects@.len()),
{
    let ghost all = world(objects@);
    let mut names = String::new();
    let mut any = false;
    let mut i: usize = 0;
    assert(names@ =~= names_in_sight(all, fov@, x as int, y as int, 0));
    while i < objects.len()
        invariant
            i <= objects@.len(),
            all == world(objects@),
            names@ == names_in_sight(all, fov@, x as int, y as int, i as nat),
            any == any_in_sight(all, fov@, x as int, y as int, i as nat),
        decreases objects@.len() - i,
    {
        let here = objects[i].x == x && objects[i].y == y && fov.is_in_fov(x, y);
        assert(here == in_sight_at(all[i as int], fov@, x as int, y as int));
        if here {
            if any {
                names.append(", ");
                names.append(objects[i].name.as_str());
            } else {
                names = String::from_str(objects[i].name.as_str());
            }
            any = true;
        }
        assert(any == any_in_sight(all, fov@, x as int, y as int, (i + 1) as nat)) by {
            if any_in_sight(all, fov@, x as int, y as int, (i + 1) as nat) {
                let k = choose|k: int|
                    0 <= k < i + 1 && in_sight_at(#[trigger] all[k], fov@, x as int, y as int);
                if k < i {
                    assert(any_in_sight(all, fov@, x as int, y as int, i as nat));
                }
            }
            if any_in_sight(all, fov@, x as int, y as int, i as nat) {
                let k = choose|k: int|
                    0 <= k < i && in_sight_at(#[trigger] all[k], fov@, x as int, y as int);
                assert(in_sight_at(all[k], fov@, x as int, y as int));
            }
        }
        i += 1;
    }
    names
}

} // verus!
