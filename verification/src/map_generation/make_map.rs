//! Rooms, corridors and their population: how a level is generated, and
//! what a generated level looks like.

use crate::colors::white;
use crate::constants::{MAP_HEIGHT, MAP_WIDTH, MAX_ROOMS, PLAYER, ROOM_MAX_SIZE, ROOM_MIN_SIZE};
use crate::geometry::Rect;
use crate::map_generation::spawn::{
    item_chances, item_kind_at, item_kinds, item_limit, item_view, item_weight, make_item,
    make_monster, max_items, max_monsters, monster_chances, monster_kind_at, monster_kinds,
    monster_limit, monster_view, monster_weight, MonsterKind,
};
use crate::objects::item::Item;
use crate::objects::object::{
    blocked, is_blocked, stands_in_the_way, world, Object, ObjectView,
};
use crate::random::{random_bool, random_range, total_weight, weighted_index};
use crate::tiles::{
    dig, dug, grid, has_size, in_grid, is_floor, rectangular, solid_map, Tile, TileMap,
};
use vstd::math::{max, min};
use vstd::prelude::*;

verus! {

/// The grid with floor laid on the interior of `room`.
pub open spec fn with_room(g: Seq<Seq<Tile>>, room: Rect) -> Seq<Seq<Tile>> {
    dug(g, room.x1 + 1, room.x2 - 1, room.y1 + 1, room.y2 - 1)
}

/// The grid with floor laid on row `y` between columns `x1` and `x2`, ends
/// included, whichever of the two is the greater.
pub open spec fn with_h_tunnel(g: Seq<Seq<Tile>>, x1: int, x2: int, y: int) -> Seq<Seq<Tile>> {
    dug(g, min(x1, x2), max(x1, x2), y, y)
}

/// The grid with floor laid on column `x` between rows `y1` and `y2`, ends
/// included, whichever of the two is the greater.
pub open spec fn with_v_tunnel(g: Seq<Seq<Tile>>, y1: int, y2: int, x: int) -> Seq<Seq<Tile>> {
    dug(g, x, x, min(y1, y2), max(y1, y2))
}

/// Whether the interior of `room` is empty or lies within the grid.
pub open spec fn room_fits_grid(g: Seq<Seq<Tile>>, room: Rect) -> bool {
    room.x1 + 1 < room.x2 && room.y1 + 1 < room.y2 ==> {
        &&& 0 <= room.x1 + 1
        &&& room.x2 - 1 < g.len()
        &&& 0 <= room.y1 + 1
        &&& room.y2 - 1 < g[0].len()
    }
}

/// Carves the interior of `room` out of the level.
pub fn create_room(room: Rect, map: &mut TileMap)
    requires
        rectangular(grid(old(map)@)),
        room_fits_grid(grid(old(map)@), room),
    ensures
        grid(final(map)@) == with_room(grid(old(map)@), room),
{
    let x_lo: i64 = room.x1 as i64 + 1;
    let x_hi: i64 = room.x2 as i64 - 1;
    let y_lo: i64 = room.y1 as i64 + 1;
    let y_hi: i64 = room.y2 as i64 - 1;
    if x_lo <= x_hi && y_lo <= y_hi {
        dig(map, x_lo as usize, x_hi as usize, y_lo as usize, y_hi as usize);
    } else {
        assert(grid(map@) =~~= with_room(grid(map@), room));
    }
}

/// Carves a horizontal tunnel along row `y` from column `x1` to column `x2`.
pub fn create_h_tunnel(x1: i32, x2: i32, y: i32, map: &mut TileMap)
    requires
        rectangular(grid(old(map)@)),
        0 <= x1 < old(map)@.len(),
        0 <= x2 < old(map)@.len(),
        0 <= y < grid(old(map)@)[0].len(),
    ensures
        grid(final(map)@) == with_h_tunnel(grid(old(map)@), x1 as int, x2 as int, y as int),
{
    let lo = if x1 <= x2 {
        x1
    } else {
        x2
    };
    let hi = if x1 <= x2 {
        x2
    } else {
        x1
    };
    dig(map, lo as usize, hi as usize, y as usize, y as usize);
}

/// Carves a vertical tunnel along column `x` from row `y1` to row `y2`.
pub fn create_v_tunnel(y1: i32, y2: i32, x: i32, map: &mut TileMap)
    requires
        rectangular(grid(old(map)@)),
        0 <= x < old(map)@.len(),
        0 <= y1 < grid(old(map)@)[0].len(),
        0 <= y2 < grid(old(map)@)[0].len(),
    ensures
        grid(final(map)@) == with_v_tunnel(grid(old(map)@), y1 as int, y2 as int, x as int),
{
    let lo = if y1 <= y2 {
        y1
    } else {
        y2
    };
    let hi = if y1 <= y2 {
        y2
    } else {
        y1
    };
    dig(map, x as usize, x as usize, lo as usize, hi as usize);
}

/// Whether `o` is a monster as the dungeon breeds them at `level`.
pub open spec fn is_monster_spawn(o: ObjectView, level: u32) -> bool {
    exists|kind: MonsterKind|
        monster_weight(kind, level) > 0 && o == #[trigger] monster_view(kind, o.x, o.y)
}

/// Whether `o` is an item as the dungeon holds them at `level`.
pub open spec fn is_item_spawn(o: ObjectView, level: u32) -> bool {
    exists|kind: Item| item_weight(kind, level) > 0 && o == #[trigger] item_view(kind, o.x, o.y)
}

/// Whether entity `k` of `objects` stands inside `room`, on a tile that was
/// free when it was put there: not solid, and not taken by a blocking entity
/// that came before it.
pub open spec fn well_placed(
    objects: Seq<ObjectView>,
    k: int,
    room: Rect,
    g: Seq<Seq<Tile>>,
) -> bool {
    &&& room.interior_contains(objects[k].x as int, objects[k].y as int)
    &&& !blocked(objects[k].x as int, objects[k].y as int, g, objects.take(k))
}

/// Whether entity `k` of `objects` is a monster bred at `level` and well
/// placed in `room`.
pub open spec fn monster_placed(
    objects: Seq<ObjectView>,
    k: int,
    room: Rect,
    g: Seq<Seq<Tile>>,
    level: u32,
) -> bool {
    is_monster_spawn(objects[k], level) && well_placed(objects, k, room, g)
}

/// Whether entity `k` of `objects` is an item found at `level` and well
/// placed in `room`.
pub open spec fn item_placed(
    objects: Seq<ObjectView>,
    k: int,
    room: Rect,
    g: Seq<Seq<Tile>>,
    level: u32,
) -> bool {
    is_item_spawn(objects[k], level) && well_placed(objects, k, room, g)
}

/// Whether `after` is `before` followed by the population of `room`: first
/// the monsters, up to position `items_from`, then the items; no more of
/// either than `level` allows, each of a kind found at `level`, each well
/// placed.
pub open spec fn populated(
    before: Seq<ObjectView>,
    after: Seq<ObjectView>,
    items_from: int,
    room: Rect,
    g: Seq<Seq<Tile>>,
    level: u32,
) -> bool {
    &&& before.len() <= items_from <= after.len()
    &&& after.take(before.len() as int) == before
    &&& items_from - before.len() <= max_monsters(level)
    &&& after.len() - items_from <= max_items(level)
    &&& forall|k: int|
        before.len() <= k < items_from ==> #[trigger] monster_placed(after, k, room, g, level)
    &&& forall|k: int|
        items_from <= k < after.len() ==> #[trigger] item_placed(after, k, room, g, level)
}

/// The contents of a collection after one more entity was added.
pub proof fn lemma_world_push(objects: Seq<Object>, o: Object)
    ensures
        world(objects.push(o)) == world(objects).push(o@),
{
    assert(world(objects.push(o)) =~= world(objects).push(o@));
}

/// Puts a monster on `(x, y)` if the tile is free, and says whether it did.
///
/// The monster is of the kind at position `kind_index` of
/// [`monster_kinds`], and it becomes the last entity. On a tile that is
/// blocked nothing is put and nothing changes.
pub fn place_monster(
    kind_index: usize,
    x: i32,
    y: i32,
    map: &TileMap,
    objects: &mut Vec<Object>,
) -> (placed: bool)
    requires
        kind_index < monster_kinds().len(),
    ensures
        placed == !blocked(x as int, y as int, grid(map@), world(old(objects)@)),
        world(final(objects)@) == if placed {
            world(old(objects)@).push(monster_view(monster_kinds()[kind_index as int], x, y))
        } else {
            world(old(objects)@)
        },
{
    if is_blocked(x, y, map, objects) {
        return false;
    }
    let monster = make_monster(monster_kind_at(kind_index), x, y);
    proof {
        lemma_world_push(objects@, monster);
    }
    objects.push(monster);
    true
}

/// Puts an item on `(x, y)` if the tile is free, and says whether it did.
///
/// The item is of the kind at position `kind_index` of [`item_kinds`], and
/// it becomes the last entity. On a tile that is blocked nothing is put and
/// nothing changes.
pub fn place_item(
    kind_index: usize,
    x: i32,
    y: i32,
    map: &TileMap,
    objects: &mut Vec<Object>,
) -> (placed: bool)
    requires
        kind_index < item_kinds().len(),
    ensures
        placed == !blocked(x as int, y as int, grid(map@), world(old(objects)@)),
        world(final(objects)@) == if placed {
            world(old(objects)@).push(item_view(item_kinds()[kind_index as int], x, y))
        } else {
            world(old(objects)@)
        },
{
    if is_blocked(x, y, map, objects) {
        return false;
    }
    let item = make_item(item_kind_at(kind_index), x, y);
    proof {
        lemma_world_push(objects@, item);
    }
    objects.push(item);
    true
}

/// Fills `room` with monsters and items as `level` allows.
///
/// How many of each is drawn at random, and so are the tile and the kind of
/// each; [`place_monster`] and [`place_item`] put each one down, or leave it
/// out if its tile is taken.
pub fn place_objects(room: Rect, map: &TileMap, objects: &mut Vec<Object>, level: u32)
    requires
        level >= 1 ==> room.x1 + 1 < room.x2 && room.y1 + 1 < room.y2,
    ensures
        exists|items_from: int| #[trigger]
            populated(
                world(old(objects)@),
                world(final(objects)@),
                items_from,
                room,
                grid(map@),
                level,
            ),
{
    let ghost before = world(objects@);
    let ghost g = grid(map@);
    let most_monsters = monster_limit(level);
    let num_monsters = random_range(0, most_monsters as i32 + 1);
    let monster_weights = monster_chances(level);
    let most_items = item_limit(level);
    let item_weights = item_chances(level);

    assert(world(objects@).take(before.len() as int) =~= before);
    let mut n: i32 = 0;
    while n < num_monsters
        invariant
            0 <= n <= num_monsters <= max_monsters(level),
            level >= 1 ==> room.x1 + 1 < room.x2 && room.y1 + 1 < room.y2,
            g == grid(map@),
            monster_weights@.len() == monster_kinds().len(),
            forall|i: int|
                0 <= i < monster_weights@.len() ==> #[trigger] monster_weights@[i]
                    == monster_weight(monster_kinds()[i], level),
            80 <= total_weight(monster_weights@) <= 140,
            before.len() <= world(objects@).len() <= before.len() + n,
            world(objects@).take(before.len() as int) == before,
            forall|k: int|
                before.len() <= k < world(objects@).len() ==> #[trigger] monster_placed(
                    world(objects@),
                    k,
                    room,
                    g,
                    level,
                ),
        decreases num_monsters - n,
    {
        let x = random_range(room.x1 + 1, room.x2);
        let y = random_range(room.y1 + 1, room.y2);
        let index = weighted_index(&monster_weights);
        let ghost earlier = world(objects@);
        let placed = place_monster(index, x, y, map, objects);
        proof {
            if placed {
                let kind = monster_kinds()[index as int];
                let now = world(objects@);
                let last = earlier.len() as int;
                assert(now.take(before.len() as int) =~= earlier.take(before.len() as int));
                assert(now.take(last) =~= earlier);
                assert(monster_weight(kind, level) > 0);
                assert(now[last] == monster_view(kind, now[last].x, now[last].y));
                assert(monster_placed(now, last, room, g, level));
                assert forall|k: int| before.len() <= k < now.len() implies #[trigger]
                    monster_placed(now, k, room, g, level) by {
                    if k < last {
                        assert(monster_placed(earlier, k, room, g, level));
                        assert(now.take(k) =~= earlier.take(k));
                    }
                }
            }
        }
        n += 1;
    }

    let ghost items_from = world(objects@).len() as int;
    let num_items = random_range(0, most_items as i32 + 1);
    let mut n: i32 = 0;
    while n < num_items
        invariant
            0 <= n <= num_items <= max_items(level),
            level >= 1 ==> room.x1 + 1 < room.x2 && room.y1 + 1 < room.y2,
            g == grid(map@),
            item_weights@.len() == item_kinds().len(),
            forall|i: int|
                0 <= i < item_weights@.len() ==> #[trigger] item_weights@[i] == item_weight(
                    item_kinds()[i],
                    level,
                ),
            35 <= total_weight(item_weights@) <= 115,
            before.len() <= items_from <= before.len() + max_monsters(level),
            items_from <= world(objects@).len() <= items_from + n,
            world(objects@).take(before.len() as int) == before,
            forall|k: int|
                before.len() <= k < items_from ==> #[trigger] monster_placed(
                    world(objects@),
                    k,
                    room,
                    g,
                    level,
                ),
            forall|k: int|
                items_from <= k < world(objects@).len() ==> #[trigger] item_placed(
                    world(objects@),
                    k,
                    room,
                    g,
                    level,
                ),
        decreases num_items - n,
    {
        let x = random_range(room.x1 + 1, room.x2);
        let y = random_range(room.y1 + 1, room.y2);
        let index = weighted_index(&item_weights);
        let ghost earlier = world(objects@);
        let placed = place_item(index, x, y, map, objects);
        proof {
            if placed {
                let kind = item_kinds()[index as int];
                let now = world(objects@);
                let last = earlier.len() as int;
                assert(now.take(before.len() as int) =~= earlier.take(before.len() as int));
                assert(now.take(last) =~= earlier);
                assert(item_weight(kind, level) > 0);
                assert(now[last] == item_view(kind, now[last].x, now[last].y));
                assert(item_placed(now, last, room, g, level));
                assert forall|k: int| before.len() <= k < items_from implies #[trigger]
                    monster_placed(now, k, room, g, level) by {
                    assert(monster_placed(earlier, k, room, g, level));
                    assert(now.take(k) =~= earlier.take(k));
                }
                assert forall|k: int| items_from <= k < now.len() implies #[trigger] item_placed(
                    now,
                    k,
                    room,
                    g,
                    level,
                ) by {
                    if k < last {
                        assert(item_placed(earlier, k, room, g, level));
                        assert(now.take(k) =~= earlier.take(k));
                    }
                }
            }
        }
        n += 1;
    }
    assert(populated(before, world(objects@), items_from, room, g, level));
}

/// Whether `room` is one that the generator may propose: its sides are within
/// the limits, and it lies within the level.
pub open spec fn valid_room(room: Rect) -> bool {
    &&& ROOM_MIN_SIZE <= room.x2 - room.x1 <= ROOM_MAX_SIZE
    &&& ROOM_MIN_SIZE <= room.y2 - room.y1 <= ROOM_MAX_SIZE
    &&& 0 <= room.x1
    &&& room.x2 < MAP_WIDTH
    &&& 0 <= room.y1
    &&& room.y2 < MAP_HEIGHT
}

/// Whether no two of the rooms share a point, borders included.
pub open spec fn disjoint(rooms: Seq<Rect>) -> bool {
    forall|i: int, j: int|
        0 <= i < j < rooms.len() ==> !(#[trigger] rooms[i]).spec_intersects_with(
            #[trigger] rooms[j],
        )
}

/// Whether `room` shares a point with one of `rooms`.
pub open spec fn intersects_any(rooms: Seq<Rect>, room: Rect) -> bool {
    exists|i: int| 0 <= i < rooms.len() && room.spec_intersects_with(#[trigger] rooms[i])
}

/// Whether the level is of the standard size, every tile is either a wall or
/// plain floor, and all floor lies off the level's border.
pub open spec fn tiles_sound(g: Seq<Seq<Tile>>) -> bool {
    &&& has_size(g, MAP_WIDTH as int, MAP_HEIGHT as int)
    &&& forall|x: int, y: int|
        0 <= x < MAP_WIDTH && 0 <= y < MAP_HEIGHT ==> {
            ||| #[trigger] g[x][y] == Tile::wall()
            ||| (g[x][y] == Tile::empty() && 1 <= x < MAP_WIDTH - 1 && 1 <= y < MAP_HEIGHT - 1)
        }
}

/// Whether every tile inside `room` is floor.
pub open spec fn room_open(g: Seq<Seq<Tile>>, room: Rect) -> bool {
    forall|x: int, y: int| room.interior_contains(x, y) ==> #[trigger] is_floor(g, x, y)
}

/// Whether row `y` is floor from column `x1` to column `x2`, ends included.
pub open spec fn h_run_open(g: Seq<Seq<Tile>>, x1: int, x2: int, y: int) -> bool {
    forall|x: int| min(x1, x2) <= x <= max(x1, x2) ==> #[trigger] is_floor(g, x, y)
}

/// Whether column `x` is floor from row `y1` to row `y2`, ends included.
pub open spec fn v_run_open(g: Seq<Seq<Tile>>, y1: int, y2: int, x: int) -> bool {
    forall|y: int| min(y1, y2) <= y <= max(y1, y2) ==> #[trigger] is_floor(g, x, y)
}

/// Whether an L-shaped corridor of floor leads from `a` to `b`: along `a`'s
/// row and then `b`'s column, or along `a`'s column and then `b`'s row.
pub open spec fn corridor_open(g: Seq<Seq<Tile>>, a: (int, int), b: (int, int)) -> bool {
    ||| (h_run_open(g, a.0, b.0, a.1) && v_run_open(g, a.1, b.1, b.0))
    ||| (v_run_open(g, a.1, b.1, a.0) && h_run_open(g, a.0, b.0, b.1))
}

/// Whether each room but the first is joined to the one before it by a
/// corridor between their centers.
pub open spec fn chained(g: Seq<Seq<Tile>>, rooms: Seq<Rect>) -> bool {
    forall|i: int|
        1 <= i < rooms.len() ==> corridor_open(
            g,
            rooms[i - 1].spec_center(),
            (#[trigger] rooms[i]).spec_center(),
        )
}

/// Whether `(x, y)` lies on the L-shaped corridor from `a` to `b` that
/// runs along `a`'s row first, if `horizontal_first`, or along `a`'s column
/// first, if not.
pub open spec fn on_corridor(
    a: (int, int),
    b: (int, int),
    horizontal_first: bool,
    x: int,
    y: int,
) -> bool {
    if horizontal_first {
        ||| (y == a.1 && min(a.0, b.0) <= x <= max(a.0, b.0))
        ||| (x == b.0 && min(a.1, b.1) <= y <= max(a.1, b.1))
    } else {
        ||| (x == a.0 && min(a.1, b.1) <= y <= max(a.1, b.1))
        ||| (y == b.1 && min(a.0, b.0) <= x <= max(a.0, b.0))
    }
}

/// Whether `(x, y)` lies inside room `i`.
pub open spec fn in_room(rooms: Seq<Rect>, i: int, x: int, y: int) -> bool {
    0 <= i < rooms.len() && rooms[i].interior_contains(x, y)
}

/// Whether `(x, y)` lies on a corridor from room `i - 1` to room `i`.
pub open spec fn on_link(rooms: Seq<Rect>, i: int, horizontal_first: bool, x: int, y: int) -> bool {
    1 <= i < rooms.len() && on_corridor(
        rooms[i - 1].spec_center(),
        rooms[i].spec_center(),
        horizontal_first,
        x,
        y,
    )
}

/// Whether `(x, y)` lies inside one of the rooms or on a corridor between
/// two rooms that follow each other.
pub open spec fn accounted(rooms: Seq<Rect>, x: int, y: int) -> bool {
    ||| exists|i: int| #[trigger] in_room(rooms, i, x, y)
    ||| exists|i: int, horizontal_first: bool| #[trigger] on_link(rooms, i, horizontal_first, x, y)
}

/// Whether all floor of the level lies in the rooms and on the corridors
/// between them: nothing else was carved.
pub open spec fn only_rooms_and_corridors(g: Seq<Seq<Tile>>, rooms: Seq<Rect>) -> bool {
    forall|x: int, y: int| #[trigger] is_floor(g, x, y) ==> accounted(rooms, x, y)
}

/// The stairs down, at `(x, y)`: they block nothing and stay on display
/// once their tile has been seen.
pub open spec fn stairs_view(x: i32, y: i32) -> ObjectView {
    ObjectView { always_visible: true, ..ObjectView::fresh(x, y, '<', "stairs"@, white(), false) }
}

/// Whether `o` is a monster or an item of `level` that stands on floor
/// inside one of the rooms.
pub open spec fn inhabitant(
    o: ObjectView,
    rooms: Seq<Rect>,
    g: Seq<Seq<Tile>>,
    level: u32,
) -> bool {
    &&& is_monster_spawn(o, level) || is_item_spawn(o, level)
    &&& is_floor(g, o.x as int, o.y as int)
    &&& exists|i: int|
        0 <= i < rooms.len() && (#[trigger] rooms[i]).interior_contains(o.x as int, o.y as int)
}

/// Whether entity `j` does not block the tile on which entity `k` stands.
pub open spec fn apart(objects: Seq<ObjectView>, j: int, k: int) -> bool {
    !stands_in_the_way(objects[j], objects[k].x as int, objects[k].y as int)
}

/// Whether none of the entities that came with the level was put on a tile
/// that an earlier, blocking one of them holds.
pub open spec fn unstacked(objects: Seq<ObjectView>) -> bool {
    forall|j: int, k: int| 1 <= j < k < objects.len() ==> #[trigger] apart(objects, j, k)
}

/// The player moved to the center of `room`.
pub open spec fn player_in(player: ObjectView, room: Rect) -> ObjectView {
    ObjectView { x: room.spec_center().0 as i32, y: room.spec_center().1 as i32, ..player }
}

/// Whether the first entity stands at the center of the first room, if
/// there is a room.
pub open spec fn player_centered(rooms: Seq<Rect>, objects: Seq<ObjectView>) -> bool {
    rooms.len() > 0 ==> objects[0].x == rooms[0].spec_center().0 && objects[0].y
        == rooms[0].spec_center().1
}

/// What a level under construction looks like once `rooms` have been
/// accepted.
///
/// The rooms are valid and no two of them overlap. The tiles are sound,
/// every room is open, each room is joined to the one before it, and
/// nothing else is floor. The first entity stands at the center of the first
/// room once there is one; all others are inhabitants of the rooms, none
/// stacked on a blocking one, and no more of them than the rooms can hold at
/// this depth.
pub open spec fn level_in_progress(
    g: Seq<Seq<Tile>>,
    rooms: Seq<Rect>,
    objects: Seq<ObjectView>,
    level: u32,
) -> bool {
    &&& forall|i: int| 0 <= i < rooms.len() ==> valid_room(#[trigger] rooms[i])
    &&& disjoint(rooms)
    &&& tiles_sound(g)
    &&& forall|i: int| 0 <= i < rooms.len() ==> room_open(g, #[trigger] rooms[i])
    &&& chained(g, rooms)
    &&& only_rooms_and_corridors(g, rooms)
    &&& objects.len() >= 1
    &&& player_centered(rooms, objects)
    &&& forall|k: int| 1 <= k < objects.len() ==> inhabitant(#[trigger] objects[k], rooms, g, level)
    &&& unstacked(objects)
    &&& objects.len() - 1 <= rooms.len() * room_capacity(level)
}

/// The most inhabitants a room can hold at a dungeon level.
pub open spec fn room_capacity(level: u32) -> int {
    max_monsters(level) + max_items(level)
}

/// What a freshly generated level looks like.
///
/// There is at least one room and no more than the generator tries. The
/// first entity is the one that was first in `before`, moved to the center
/// of the first room and otherwise untouched. The last entity is the stairs
/// down, at the center of the last room. What comes before the stairs is as
/// [`level_in_progress`] says of the finished set of rooms.
pub open spec fn level_generated(
    g: Seq<Seq<Tile>>,
    rooms: Seq<Rect>,
    before: Seq<ObjectView>,
    after: Seq<ObjectView>,
    level: u32,
) -> bool {
    &&& 1 <= rooms.len() <= MAX_ROOMS
    &&& after.len() >= 2
    &&& after[0] == player_in(before[0], rooms[0])
    &&& level_in_progress(g, rooms, after.drop_last(), level)
    &&& after.last() == stairs_view(
        rooms.last().spec_center().0 as i32,
        rooms.last().spec_center().1 as i32,
    )
}

/// No two rooms of a generated level overlap, whichever way round they are
/// compared.
pub proof fn lemma_generated_rooms_never_overlap(
    g: Seq<Seq<Tile>>,
    rooms: Seq<Rect>,
    before: Seq<ObjectView>,
    after: Seq<ObjectView>,
    level: u32,
    i: int,
    j: int,
)
    requires
        level_generated(g, rooms, before, after, level),
        0 <= i < rooms.len(),
        0 <= j < rooms.len(),
        i != j,
    ensures
        !rooms[i].spec_intersects_with(rooms[j]),
{
    if i < j {
        assert(!rooms[i].spec_intersects_with(rooms[j]));
    } else {
        assert(!rooms[j].spec_intersects_with(rooms[i]));
    }
}

/// A generated level has a room; the player stands at the center of the
/// first room, on floor, and is otherwise who they were; the stairs stand at
/// the center of the last room, on floor, and stay on display.
pub proof fn lemma_generated_level_has_its_landmarks(
    g: Seq<Seq<Tile>>,
    rooms: Seq<Rect>,
    before: Seq<ObjectView>,
    after: Seq<ObjectView>,
    level: u32,
)
    requires
        level_generated(g, rooms, before, after, level),
    ensures
        rooms.len() >= 1,
        after[0] == player_in(before[0], rooms[0]),
        (after[0].x as int, after[0].y as int) == rooms[0].spec_center(),
        is_floor(g, after[0].x as int, after[0].y as int),
        (after.last().x as int, after.last().y as int) == rooms.last().spec_center(),
        is_floor(g, after.last().x as int, after.last().y as int),
        after.last().always_visible,
        after.last().name == "stairs"@,
        !after.last().blocks,
{
    let first = rooms[0];
    let last = rooms[rooms.len() - 1];
    assert(valid_room(first));
    assert(valid_room(last));
    lemma_center_inside(first);
    lemma_center_inside(last);
    assert(room_open(g, first));
    assert(room_open(g, last));
    assert(is_floor(g, first.spec_center().0, first.spec_center().1));
    assert(is_floor(g, last.spec_center().0, last.spec_center().1));
}

/// Whether every tile that is floor in `g1` is floor in `g2`.
pub open spec fn floor_kept(g1: Seq<Seq<Tile>>, g2: Seq<Seq<Tile>>) -> bool {
    forall|x: int, y: int| is_floor(g1, x, y) ==> #[trigger] is_floor(g2, x, y)
}

/// Digging off the border keeps the tiles sound, keeps all floor, and makes
/// floor of what was dug.
proof fn lemma_dug_sound(g: Seq<Seq<Tile>>, x_lo: int, x_hi: int, y_lo: int, y_hi: int)
    requires
        tiles_sound(g),
        1 <= x_lo,
        x_hi <= MAP_WIDTH - 2,
        1 <= y_lo,
        y_hi <= MAP_HEIGHT - 2,
    ensures
        tiles_sound(dug(g, x_lo, x_hi, y_lo, y_hi)),
        floor_kept(g, dug(g, x_lo, x_hi, y_lo, y_hi)),
        forall|x: int, y: int|
            x_lo <= x <= x_hi && y_lo <= y <= y_hi ==> #[trigger] is_floor(
                dug(g, x_lo, x_hi, y_lo, y_hi),
                x,
                y,
            ),
{
    let d = dug(g, x_lo, x_hi, y_lo, y_hi);
    assert forall|x: int| 0 <= x < MAP_WIDTH implies (#[trigger] d[x]).len() == MAP_HEIGHT by {
        assert(g[x].len() == MAP_HEIGHT);
    }
    assert forall|x: int, y: int| 0 <= x < MAP_WIDTH && 0 <= y < MAP_HEIGHT implies {
        ||| #[trigger] d[x][y] == Tile::wall()
        ||| (d[x][y] == Tile::empty() && 1 <= x < MAP_WIDTH - 1 && 1 <= y < MAP_HEIGHT - 1)
    } by {
        assert(g[x].len() == MAP_HEIGHT);
        assert(g[x][y] == Tile::wall() || g[x][y] == Tile::empty());
    }
    assert forall|x: int, y: int| is_floor(g, x, y) implies #[trigger] is_floor(d, x, y) by {
        assert(g[x].len() == MAP_HEIGHT);
    }
    assert forall|x: int, y: int| x_lo <= x <= x_hi && y_lo <= y <= y_hi implies #[trigger]
        is_floor(d, x, y) by {
        assert(g[x].len() == MAP_HEIGHT);
    }
}

/// Digging makes floor of nothing but what was dug.
proof fn lemma_dug_only(
    g: Seq<Seq<Tile>>,
    x_lo: int,
    x_hi: int,
    y_lo: int,
    y_hi: int,
    x: int,
    y: int,
)
    requires
        is_floor(dug(g, x_lo, x_hi, y_lo, y_hi), x, y),
    ensures
        is_floor(g, x, y) || (x_lo <= x <= x_hi && y_lo <= y <= y_hi),
{
}

/// What the rooms account for, they account for with one room more.
proof fn lemma_accounted_grows(rooms: Seq<Rect>, room: Rect, x: int, y: int)
    requires
        accounted(rooms, x, y),
    ensures
        accounted(rooms.push(room), x, y),
{
    let more = rooms.push(room);
    if exists|i: int| #[trigger] in_room(rooms, i, x, y) {
        let i = choose|i: int| #[trigger] in_room(rooms, i, x, y);
        assert(more[i] == rooms[i]);
        assert(in_room(more, i, x, y));
    } else {
        let (i, horizontal_first) = choose|i: int, horizontal_first: bool| #[trigger]
            on_link(rooms, i, horizontal_first, x, y);
        assert(more[i] == rooms[i]);
        assert(more[i - 1] == rooms[i - 1]);
        assert(on_link(more, i, horizontal_first, x, y));
    }
}

/// The center of a valid room lies strictly inside it.
proof fn lemma_center_inside(room: Rect)
    requires
        valid_room(room),
    ensures
        room.interior_contains(room.spec_center().0, room.spec_center().1),
        room.spec_center().0 == (room.x1 + room.x2) / 2,
        room.spec_center().1 == (room.y1 + room.y2) / 2,
{
}

/// Whether `room` shares a point with one of `rooms`.
pub fn overlaps_any(rooms: &Vec<Rect>, room: &Rect) -> (b: bool)
    ensures
        b == intersects_any(rooms@, *room),
{
    let mut i: usize = 0;
    while i < rooms.len()
        invariant
            i <= rooms@.len(),
            forall|j: int| 0 <= j < i ==> !room.spec_intersects_with(#[trigger] rooms@[j]),
        decreases rooms@.len() - i,
    {
        if room.intersects_with(&rooms[i]) {
            return true;
        }
        i += 1;
    }
    false
}

/// Floor that is kept twice is kept.
proof fn lemma_floor_kept_twice(g1: Seq<Seq<Tile>>, g2: Seq<Seq<Tile>>, g3: Seq<Seq<Tile>>)
    requires
        floor_kept(g1, g2),
        floor_kept(g2, g3),
    ensures
        floor_kept(g1, g3),
{
    assert forall|x: int, y: int| is_floor(g1, x, y) implies #[trigger] is_floor(g3, x, y) by {
        assert(is_floor(g2, x, y));
    }
}

/// An open room stays open while floor is kept.
proof fn lemma_room_stays_open(g1: Seq<Seq<Tile>>, g2: Seq<Seq<Tile>>, room: Rect)
    requires
        floor_kept(g1, g2),
        room_open(g1, room),
    ensures
        room_open(g2, room),
{
    assert forall|x: int, y: int| room.interior_contains(x, y) implies #[trigger] is_floor(
        g2,
        x,
        y,
    ) by {
        assert(is_floor(g1, x, y));
    }
}

/// An open corridor stays open while floor is kept.
proof fn lemma_corridor_stays_open(
    g1: Seq<Seq<Tile>>,
    g2: Seq<Seq<Tile>>,
    a: (int, int),
    b: (int, int),
)
    requires
        floor_kept(g1, g2),
        corridor_open(g1, a, b),
    ensures
        corridor_open(g2, a, b),
{
    if h_run_open(g1, a.0, b.0, a.1) && v_run_open(g1, a.1, b.1, b.0) {
        assert forall|x: int| min(a.0, b.0) <= x <= max(a.0, b.0) implies #[trigger] is_floor(
            g2,
            x,
            a.1,
        ) by {
            assert(is_floor(g1, x, a.1));
        }
        assert forall|y: int| min(a.1, b.1) <= y <= max(a.1, b.1) implies #[trigger] is_floor(
            g2,
            b.0,
            y,
        ) by {
            assert(is_floor(g1, b.0, y));
        }
    } else {
        assert forall|y: int| min(a.1, b.1) <= y <= max(a.1, b.1) implies #[trigger] is_floor(
            g2,
            a.0,
            y,
        ) by {
            assert(is_floor(g1, a.0, y));
        }
        assert forall|x: int| min(a.0, b.0) <= x <= max(a.0, b.0) implies #[trigger] is_floor(
            g2,
            x,
            b.1,
        ) by {
            assert(is_floor(g1, x, b.1));
        }
    }
}

/// An inhabitant stays one while floor is kept and rooms are only added.
proof fn lemma_inhabitant_stays(
    o: ObjectView,
    rooms: Seq<Rect>,
    room: Rect,
    g1: Seq<Seq<Tile>>,
    g2: Seq<Seq<Tile>>,
    level: u32,
)
    requires
        floor_kept(g1, g2),
        inhabitant(o, rooms, g1, level),
    ensures
        inhabitant(o, rooms.push(room), g2, level),
{
    let i = choose|i: int|
        0 <= i < rooms.len() && (#[trigger] rooms[i]).interior_contains(o.x as int, o.y as int);
    assert(rooms.push(room)[i] == rooms[i]);
    assert(is_floor(g1, o.x as int, o.y as int));
}

/// Joins two tiles by an L-shaped corridor: along the row of `from` and then
/// the column of `to` if `horizontal_first`, else along the column of `from`
/// and then the row of `to`.
pub fn connect(from: (i32, i32), to: (i32, i32), horizontal_first: bool, map: &mut TileMap)
    requires
        rectangular(grid(old(map)@)),
        0 <= from.0 < old(map)@.len(),
        0 <= to.0 < old(map)@.len(),
        0 <= from.1 < grid(old(map)@)[0].len(),
        0 <= to.1 < grid(old(map)@)[0].len(),
    ensures
        grid(final(map)@) == if horizontal_first {
            with_v_tunnel(
                with_h_tunnel(grid(old(map)@), from.0 as int, to.0 as int, from.1 as int),
                from.1 as int,
                to.1 as int,
                to.0 as int,
            )
        } else {
            with_h_tunnel(
                with_v_tunnel(grid(old(map)@), from.1 as int, to.1 as int, from.0 as int),
                from.0 as int,
                to.0 as int,
                to.1 as int,
            )
        },
{
    let ghost g0 = grid(map@);
    if horizontal_first {
        create_h_tunnel(from.0, to.0, from.1, map);
        proof {
            lemma_dug_shape(
                g0,
                min(from.0 as int, to.0 as int),
                max(from.0 as int, to.0 as int),
                from.1 as int,
                from.1 as int,
            );
        }
        create_v_tunnel(from.1, to.1, to.0, map);
    } else {
        create_v_tunnel(from.1, to.1, from.0, map);
        proof {
            lemma_dug_shape(
                g0,
                from.0 as int,
                from.0 as int,
                min(from.1 as int, to.1 as int),
                max(from.1 as int, to.1 as int),
            );
        }
        create_h_tunnel(from.0, to.0, to.1, map);
    }
}

/// Digging changes no column's height.
pub proof fn lemma_dug_shape(g: Seq<Seq<Tile>>, x_lo: int, x_hi: int, y_lo: int, y_hi: int)
    ensures
        dug(g, x_lo, x_hi, y_lo, y_hi).len() == g.len(),
        forall|x: int|
            0 <= x < g.len() ==> (#[trigger] dug(g, x_lo, x_hi, y_lo, y_hi)[x]).len()
                == g[x].len(),
        rectangular(g) ==> rectangular(dug(g, x_lo, x_hi, y_lo, y_hi)),
{
    let d = dug(g, x_lo, x_hi, y_lo, y_hi);
    assert forall|x: int| 0 <= x < g.len() implies (#[trigger] d[x]).len() == g[x].len() by {}
    if rectangular(g) {
        assert forall|x: int| 0 <= x < d.len() implies (#[trigger] d[x]).len() == d[0].len() by {
            assert(d[x].len() == g[x].len());
            assert(d[0].len() == g[0].len());
        }
    }
}

/// Adds an accepted room to the level: carves it, fills it, and either puts
/// the player at its center, if it is the first room, or joins it to the
/// room before it by a corridor whose bend is chosen at random.
pub fn add_room(
    new_room: Rect,
    map: &mut TileMap,
    rooms: &mut Vec<Rect>,
    objects: &mut Vec<Object>,
    level: u32,
)
    requires
        valid_room(new_room),
        !intersects_any(old(rooms)@, new_room),
        level_in_progress(grid(old(map)@), old(rooms)@, world(old(objects)@), level),
    ensures
        final(rooms)@ == old(rooms)@.push(new_room),
        level_in_progress(grid(final(map)@), final(rooms)@, world(final(objects)@), level),
        floor_kept(grid(old(map)@), grid(final(map)@)),
        world(final(objects)@).len() >= world(old(objects)@).len(),
        world(final(objects)@)[0] == if old(rooms)@.len() == 0 {
            player_in(world(old(objects)@)[0], new_room)
        } else {
            world(old(objects)@)[0]
        },
        forall|k: int|
            1 <= k < world(old(objects)@).len() ==> world(final(objects)@)[k] == world(
                old(objects)@,
            )[k],
{
    let ghost g0 = grid(map@);
    let ghost rooms0 = rooms@;
    let ghost rooms1 = rooms@.push(new_room);
    let ghost objs0 = world(objects@);

    assert(rectangular(g0)) by {
        assert forall|x: int| 0 <= x < g0.len() implies (#[trigger] g0[x]).len() == g0[0].len() by {
            assert(g0[0].len() == MAP_HEIGHT);
        }
    }
    assert(g0[0].len() == MAP_HEIGHT);
    create_room(new_room, map);
    let ghost g1 = grid(map@);
    proof {
        lemma_dug_sound(g0, new_room.x1 + 1, new_room.x2 - 1, new_room.y1 + 1, new_room.y2 - 1);
        assert(room_open(g1, new_room));
    }

    place_objects(new_room, map, objects, level);
    let ghost objs1 = world(objects@);
    proof {
        let items_from = choose|items_from: int| #[trigger]
            populated(objs0, objs1, items_from, new_room, g1, level);
        assert(rooms1[rooms0.len() as int] == new_room);
        assert forall|k: int| 1 <= k < objs1.len() implies inhabitant(
            #[trigger] objs1[k],
            rooms1,
            g1,
            level,
        ) by {
            if k < objs0.len() {
                assert(objs1[k] == objs1.take(objs0.len() as int)[k]);
                assert(inhabitant(objs0[k], rooms0, g0, level));
                lemma_inhabitant_stays(objs0[k], rooms0, new_room, g0, g1, level);
            } else {
                if k < items_from {
                    assert(monster_placed(objs1, k, new_room, g1, level));
                } else {
                    assert(item_placed(objs1, k, new_room, g1, level));
                }
                assert(well_placed(objs1, k, new_room, g1));
                let (x, y) = (objs1[k].x as int, objs1[k].y as int);
                assert(in_grid(g1, x, y));
                assert(g1[x][y] == Tile::wall() || g1[x][y] == Tile::empty());
                assert(is_floor(g1, x, y));
            }
        }
        assert forall|j: int, k: int| 1 <= j < k < objs1.len() implies #[trigger] apart(
            objs1,
            j,
            k,
        ) by {
            if k < objs0.len() {
                assert(objs1[k] == objs1.take(objs0.len() as int)[k]);
                assert(objs1[j] == objs1.take(objs0.len() as int)[j]);
                assert(apart(objs0, j, k));
            } else {
                if k < items_from {
                    assert(monster_placed(objs1, k, new_room, g1, level));
                } else {
                    assert(item_placed(objs1, k, new_room, g1, level));
                }
                assert(well_placed(objs1, k, new_room, g1));
                let (x, y) = (objs1[k].x as int, objs1[k].y as int);
                assert(objs1.take(k)[j] == objs1[j]);
                assert(!stands_in_the_way(objs1.take(k)[j], x, y));
            }
        }
        assert(objs1[0] == objs1.take(objs0.len() as int)[0]);
        lemma_center_inside(new_room);
        assert(objs1.len() - 1 <= rooms1.len() * room_capacity(level)) by {
            assert(objs1.len() - objs0.len() <= room_capacity(level));
            assert((rooms0.len() + 1) * room_capacity(level) == rooms0.len() * room_capacity(level)
                + room_capacity(level)) by (nonlinear_arith);
        }
    }

    let (new_x, new_y) = new_room.center();
    if rooms.is_empty() {
        objects[PLAYER].set_pos(new_x, new_y);
        proof {
            let objs2 = world(objects@);
            assert(objs2 =~= objs1.update(0, player_in(objs0[0], new_room)));
            assert forall|j: int, k: int| 1 <= j < k < objs2.len() implies #[trigger] apart(
                objs2,
                j,
                k,
            ) by {
                assert(apart(objs1, j, k));
            }
            assert forall|k: int| 1 <= k < objs2.len() implies inhabitant(
                #[trigger] objs2[k],
                rooms1,
                g1,
                level,
            ) by {
                assert(inhabitant(objs1[k], rooms1, g1, level));
            }
            assert forall|i: int| 0 <= i < rooms1.len() implies room_open(
                g1,
                #[trigger] rooms1[i],
            ) by {}
            assert forall|x: int, y: int| #[trigger] is_floor(g1, x, y) implies accounted(
                rooms1,
                x,
                y,
            ) by {
                lemma_dug_only(
                    g0,
                    new_room.x1 + 1,
                    new_room.x2 - 1,
                    new_room.y1 + 1,
                    new_room.y2 - 1,
                    x,
                    y,
                );
                if is_floor(g0, x, y) {
                    lemma_accounted_grows(rooms0, new_room, x, y);
                } else {
                    assert(in_room(rooms1, rooms0.len() as int, x, y));
                }
            }
        }
    } else {
        let previous = rooms[rooms.len() - 1];
        let (prev_x, prev_y) = previous.center();
        let horizontal_first = random_bool();
        proof {
            assert(valid_room(rooms0[rooms0.len() - 1]));
            lemma_center_inside(previous);
            lemma_dug_shape(
                g0,
                new_room.x1 + 1,
                new_room.x2 - 1,
                new_room.y1 + 1,
                new_room.y2 - 1,
            );
            assert(g1[0].len() == MAP_HEIGHT);
        }
        connect((prev_x, prev_y), (new_x, new_y), horizontal_first, map);
        proof {
            let g3 = grid(map@);
            let a = (prev_x as int, prev_y as int);
            let b = (new_x as int, new_y as int);
            if horizontal_first {
                let g2 = with_h_tunnel(g1, a.0, b.0, a.1);
                lemma_dug_sound(g1, min(a.0, b.0), max(a.0, b.0), a.1, a.1);
                lemma_dug_sound(g2, b.0, b.0, min(a.1, b.1), max(a.1, b.1));
                lemma_floor_kept_twice(g1, g2, g3);
                assert forall|x: int| min(a.0, b.0) <= x <= max(a.0, b.0) implies #[trigger]
                    is_floor(g3, x, a.1) by {
                    assert(is_floor(g2, x, a.1));
                }
                assert(h_run_open(g3, a.0, b.0, a.1));
                assert(v_run_open(g3, a.1, b.1, b.0));
            } else {
                let g2 = with_v_tunnel(g1, a.1, b.1, a.0);
                lemma_dug_sound(g1, a.0, a.0, min(a.1, b.1), max(a.1, b.1));
                lemma_dug_sound(g2, min(a.0, b.0), max(a.0, b.0), b.1, b.1);
                lemma_floor_kept_twice(g1, g2, g3);
                assert forall|y: int| min(a.1, b.1) <= y <= max(a.1, b.1) implies #[trigger]
                    is_floor(g3, a.0, y) by {
                    assert(is_floor(g2, a.0, y));
                }
                assert(v_run_open(g3, a.1, b.1, a.0));
                assert(h_run_open(g3, a.0, b.0, b.1));
            }
            assert(corridor_open(g3, a, b));
            assert forall|x: int, y: int| #[trigger] is_floor(g3, x, y) implies accounted(
                rooms1,
                x,
                y,
            ) by {
                let last = rooms0.len() as int;
                assert(rooms1[last - 1] == previous);
                assert(rooms1[last] == new_room);
                if horizontal_first {
                    let g2 = with_h_tunnel(g1, a.0, b.0, a.1);
                    lemma_dug_only(g2, b.0, b.0, min(a.1, b.1), max(a.1, b.1), x, y);
                    if is_floor(g2, x, y) {
                        lemma_dug_only(g1, min(a.0, b.0), max(a.0, b.0), a.1, a.1, x, y);
                    }
                } else {
                    let g2 = with_v_tunnel(g1, a.1, b.1, a.0);
                    lemma_dug_only(g2, min(a.0, b.0), max(a.0, b.0), b.1, b.1, x, y);
                    if is_floor(g2, x, y) {
                        lemma_dug_only(g1, a.0, a.0, min(a.1, b.1), max(a.1, b.1), x, y);
                    }
                }
                if is_floor(g1, x, y) {
                    lemma_dug_only(
                        g0,
                        new_room.x1 + 1,
                        new_room.x2 - 1,
                        new_room.y1 + 1,
                        new_room.y2 - 1,
                        x,
                        y,
                    );
                    if is_floor(g0, x, y) {
                        lemma_accounted_grows(rooms0, new_room, x, y);
                    } else {
                        assert(in_room(rooms1, last, x, y));
                    }
                } else {
                    assert(on_corridor(a, b, horizontal_first, x, y));
                    assert(on_link(rooms1, last, horizontal_first, x, y));
                }
            }
            lemma_floor_kept_twice(g0, g1, g3);
            assert forall|i: int| 0 <= i < rooms1.len() implies room_open(
                g3,
                #[trigger] rooms1[i],
            ) by {
                if i < rooms0.len() {
                    assert(room_open(g0, rooms0[i]));
                    lemma_room_stays_open(g0, g3, rooms0[i]);
                } else {
                    lemma_room_stays_open(g1, g3, new_room);
                }
            }
            assert forall|i: int| 1 <= i < rooms1.len() implies corridor_open(
                g3,
                rooms1[i - 1].spec_center(),
                (#[trigger] rooms1[i]).spec_center(),
            ) by {
                if i < rooms0.len() {
                    assert(corridor_open(
                        g0,
                        rooms0[i - 1].spec_center(),
                        rooms0[i].spec_center(),
                    ));
                    lemma_corridor_stays_open(
                        g0,
                        g3,
                        rooms0[i - 1].spec_center(),
                        rooms0[i].spec_center(),
                    );
                }
            }
            assert forall|k: int| 1 <= k < objs1.len() implies inhabitant(
                #[trigger] objs1[k],
                rooms1,
                g3,
                level,
            ) by {
                assert(inhabitant(objs1[k], rooms1, g1, level));
                let i = choose|i: int|
                    0 <= i < rooms1.len() && (#[trigger] rooms1[i]).interior_contains(
                        objs1[k].x as int,
                        objs1[k].y as int,
                    );
                assert(is_floor(g1, objs1[k].x as int, objs1[k].y as int));
            }
            assert(rooms1[0] == rooms0[0]);
        }
    }
    rooms.push(new_room);
    proof {
        assert forall|i: int| 0 <= i < rooms1.len() implies valid_room(#[trigger] rooms1[i]) by {
            if i < rooms0.len() {
                assert(valid_room(rooms0[i]));
            }
        }
        assert forall|i: int, j: int| 0 <= i < j < rooms1.len() implies !(#[trigger] rooms1[i])
            .spec_intersects_with(#[trigger] rooms1[j]) by {
            if j < rooms0.len() {
                assert(!rooms0[i].spec_intersects_with(rooms0[j]));
            } else {
                assert(!new_room.spec_intersects_with(rooms0[i]));
            }
        }
    }
}

/// Considers a candidate room: adds it to the level if it overlaps none of
/// the rooms accepted so far, and says whether it did.
///
/// A candidate that overlaps an accepted room is discarded, and nothing
/// changes. Any other is added as [`add_room`] says.
pub fn try_room(
    candidate: Rect,
    map: &mut TileMap,
    rooms: &mut Vec<Rect>,
    objects: &mut Vec<Object>,
    level: u32,
) -> (accepted: bool)
    requires
        valid_room(candidate),
        level_in_progress(grid(old(map)@), old(rooms)@, world(old(objects)@), level),
    ensures
        accepted == !intersects_any(old(rooms)@, candidate),
        !accepted ==> {
            &&& grid(final(map)@) == grid(old(map)@)
            &&& final(rooms)@ == old(rooms)@
            &&& world(final(objects)@) == world(old(objects)@)
        },
        accepted ==> {
            &&& final(rooms)@ == old(rooms)@.push(candidate)
            &&& level_in_progress(
                grid(final(map)@),
                final(rooms)@,
                world(final(objects)@),
                level,
            )
            &&& floor_kept(grid(old(map)@), grid(final(map)@))
            &&& world(final(objects)@).len() >= world(old(objects)@).len()
            &&& world(final(objects)@)[0] == if old(rooms)@.len() == 0 {
                player_in(world(old(objects)@)[0], candidate)
            } else {
                world(old(objects)@)[0]
            }
            &&& forall|k: int|
                1 <= k < world(old(objects)@).len() ==> world(final(objects)@)[k] == world(
                    old(objects)@,
                )[k]
        },
{
    if overlaps_any(rooms, &candidate) {
        return false;
    }
    add_room(candidate, map, rooms, objects, level);
    true
}

/// Generates a level and says which rooms it is made of.
///
/// All entities but the first are dropped. Candidate rooms are drawn at
/// random and handed to [`try_room`], which adds each one that overlaps no
/// accepted room. The stairs down go to the center of the last room.
pub fn generate_level(objects: &mut Vec<Object>, level: u32) -> (generated: (TileMap, Vec<Rect>))
    requires
        old(objects)@.len() >= 1,
    ensures
        level_generated(
            grid(generated.0@),
            generated.1@,
            world(old(objects)@),
            world(final(objects)@),
            level,
        ),
{
    let ghost first = world(objects@)[0];
    let mut map = solid_map(MAP_WIDTH as usize, MAP_HEIGHT as usize);
    let mut rooms: Vec<Rect> = Vec::new();
    objects.truncate(1);
    assert(world(objects@)[0] == first);

    let mut attempt: i32 = 0;
    while attempt < MAX_ROOMS
        invariant
            0 <= attempt <= MAX_ROOMS,
            rooms@.len() <= attempt,
            attempt > 0 ==> rooms@.len() > 0,
            level_in_progress(grid(map@), rooms@, world(objects@), level),
            world(objects@)[0] == if rooms@.len() == 0 {
                first
            } else {
                player_in(first, rooms@[0])
            },
        decreases MAX_ROOMS - attempt,
    {
        let w = random_range(ROOM_MIN_SIZE, ROOM_MAX_SIZE + 1);
        let h = random_range(ROOM_MIN_SIZE, ROOM_MAX_SIZE + 1);
        let x = random_range(0, MAP_WIDTH - w);
        let y = random_range(0, MAP_HEIGHT - h);

        let new_room = Rect::new(x, y, w, h);
        let ghost rooms0 = rooms@;
        let accepted = try_room(new_room, &mut map, &mut rooms, objects, level);
        proof {
            if accepted {
                assert(rooms@[0] == if rooms0.len() == 0 {
                    new_room
                } else {
                    rooms0[0]
                });
            } else {
                assert(rooms0.len() > 0);
            }
        }
        attempt += 1;
    }

    let last_room = rooms[rooms.len() - 1];
    proof {
        assert(valid_room(rooms@[rooms@.len() - 1]));
        lemma_center_inside(last_room);
    }
    let (last_room_x, last_room_y) = last_room.center();
    let mut stairs = Object::new(last_room_x, last_room_y, '<', "stairs", white(), false);
    stairs.always_visible = true;
    let ghost inhabitants = world(objects@);
    proof {
        lemma_world_push(objects@, stairs);
    }
    objects.push(stairs);
    assert(world(objects@).drop_last() =~= inhabitants);
    (map, rooms)
}

/// Generates a level.
///
/// All entities but the first are dropped; the first is put at the center of
/// the first room, and the level's inhabitants and the stairs down follow it.
pub fn make_map(objects: &mut Vec<Object>, level: u32) -> (map: TileMap)
    requires
        old(objects)@.len() >= 1,
    ensures
        exists|rooms: Seq<Rect>| #[trigger]
            level_generated(
                grid(map@),
                rooms,
                world(old(objects)@),
                world(final(objects)@),
                level,
            ),
{
    let (map, rooms) = generate_level(objects, level);
    assert(level_generated(
        grid(map@),
        rooms@,
        world(old(objects)@),
        world(objects@),
        level,
    ));
    map
}

} // verus!
