//! The entities of the game and what they can do.

pub mod ai;
pub mod equipment;
pub mod fighter;
pub mod game;
pub mod item;
pub mod object;
pub mod player;

use crate::objects::object::{blocked, is_blocked, world, Object, ObjectView};
use crate::tiles::{grid, Tile, TileMap};
use vstd::prelude::*;

verus! {

impl ObjectView {
    /// The entity shifted by `(dx, dy)`.
    pub open spec fn shifted(self, dx: int, dy: int) -> ObjectView {
        ObjectView { x: (self.x + dx) as i32, y: (self.y + dy) as i32, ..self }
    }
}

/// Whether entity `id` can step by `(dx, dy)`: the tile it would come to can
/// be named, and nothing blocks it.
pub open spec fn can_step(
    objects: Seq<ObjectView>,
    id: int,
    dx: int,
    dy: int,
    g: Seq<Seq<Tile>>,
) -> bool {
    &&& i32::MIN <= objects[id].x + dx <= i32::MAX
    &&& i32::MIN <= objects[id].y + dy <= i32::MAX
    &&& !blocked(objects[id].x + dx, objects[id].y + dy, g, objects)
}

/// The entities after entity `id` tried to step by `(dx, dy)`: it has moved
/// if it could, and nothing has changed if it could not.
pub open spec fn stepped(
    objects: Seq<ObjectView>,
    id: int,
    dx: int,
    dy: int,
    g: Seq<Seq<Tile>>,
) -> Seq<ObjectView> {
    if can_step(objects, id, dx, dy, g) {
        objects.update(id, objects[id].shifted(dx, dy))
    } else {
        objects
    }
}

/// Moves entity `id` by `(dx, dy)` unless the tile it would come to is
/// blocked.
pub fn move_by(id: usize, dx: i32, dy: i32, map: &TileMap, objects: &mut Vec<Object>)
    requires
        id < old(objects)@.len(),
    ensures
        world(final(objects)@) == stepped(
            world(old(objects)@),
            id as int,
            dx as int,
            dy as int,
            grid(map@),
        ),
{
    let (x, y) = objects[id].pos();
    let nx: i64 = x as i64 + dx as i64;
    let ny: i64 = y as i64 + dy as i64;
    let x_fits = i32::MIN as i64 <= nx && nx <= i32::MAX as i64;
    let y_fits = i32::MIN as i64 <= ny && ny <= i32::MAX as i64;
    if !x_fits || !y_fits {
        assert(world(objects@) =~= world(old(objects)@));
        return ;
    }
    if !is_blocked(nx as i32, ny as i32, map, objects) {
        objects[id].set_pos(nx as i32, ny as i32);
        assert(world(objects@) =~= world(old(objects)@).update(
            id as int,
            world(old(objects)@)[id as int].shifted(dx as int, dy as int),
        ));
    } else {
        assert(world(objects@) =~= world(old(objects)@));
    }
}

} // verus!
