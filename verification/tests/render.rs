use dungeon_core::colors::{dark_ground, dark_wall, light_ground, light_wall, white, Color};
use dungeon_core::fov::{initialise_fov, FovCell, FovMap};
use dungeon_core::messages::Messages;
use dungeon_core::objects::game::Game;
use dungeon_core::objects::object::{is_blocked, Object};
use dungeon_core::render::{
    draw_order, fov_recompute_needed, is_shown, mark_explored, names_at, render_all, tile_color,
};
use dungeon_core::tiles::{dig, set_tile, solid_map, tile_at, Tile};

fn view_of(cells: &[(usize, usize)]) -> FovMap {
    let cell = FovCell { transparent: true, walkable: true, in_fov: false };
    let mut fov = FovMap { cells: vec![vec![cell; 6]; 8] };
    for &(x, y) in cells {
        fov.set_in_fov(x, y, true);
    }
    fov
}

fn thing(x: i32, y: i32, name: &str, blocks: bool, always_visible: bool) -> Object {
    let mut o = Object::new(x, y, 'x', name, white(), blocks);
    o.always_visible = always_visible;
    o
}

#[test]
fn explored_is_monotonic() {
    let mut map = solid_map(8, 6);
    dig(&mut map, 1, 6, 1, 4);
    let snapshot = map.clone();
    mark_explored(&mut map, &view_of(&[(1, 1), (2, 1), (0, 0)]));
    for x in 0..8 {
        for y in 0..6 {
            let seen = (x, y) == (1, 1) || (x, y) == (2, 1) || (x, y) == (0, 0);
            assert_eq!(map[x][y].explored, seen);
            assert_eq!(map[x][y].blocked, snapshot[x][y].blocked);
            assert_eq!(map[x][y].block_sight, snapshot[x][y].block_sight);
        }
    }
    mark_explored(&mut map, &view_of(&[(5, 4)]));
    assert!(map[1][1].explored && map[2][1].explored && map[0][0].explored && map[5][4].explored);
    mark_explored(&mut map, &view_of(&[]));
    assert!(map[1][1].explored && map[2][1].explored && map[0][0].explored && map[5][4].explored);
    assert!(!map[3][3].explored);
}

#[test]
fn exploring_ignores_view_outside_the_map() {
    let mut map = solid_map(2, 2);
    mark_explored(&mut map, &view_of(&[(1, 1), (7, 5)]));
    assert!(map[1][1].explored);
    assert!(!map[0][0].explored);
    assert_eq!(map.len(), 2);
}

#[test]
fn tile_colours() {
    assert_eq!(tile_color(false, true), dark_wall());
    assert_eq!(tile_color(false, false), dark_ground());
    assert_eq!(tile_color(true, true), light_wall());
    assert_eq!(tile_color(true, false), light_ground());
    assert_eq!(dark_wall(), Color { r: 0, g: 0, b: 100 });
    assert_eq!(light_ground(), Color { r: 200, g: 180, b: 50 });
}

#[test]
fn recompute_only_when_player_moved() {
    let player = thing(3, 4, "player", true, false);
    assert!(fov_recompute_needed((-1, -1), &player));
    assert!(!fov_recompute_needed((3, 4), &player));
    assert!(fov_recompute_needed((3, 5), &player));
    assert!(fov_recompute_needed((4, 4), &player));
}

#[test]
fn drawing_order_puts_blockers_last() {
    let mut map = solid_map(8, 6);
    set_tile(&mut map, 4, 4, Tile { blocked: false, block_sight: false, explored: true });
    let fov = view_of(&[(1, 1), (2, 2)]);
    let objects = vec![
        thing(1, 1, "player", true, false),
        thing(2, 2, "potion", false, true),
        thing(3, 3, "hidden orc", true, false),
        thing(4, 4, "stairs", false, true),
        thing(5, 5, "unseen item", false, true),
        thing(2, 2, "orc", true, false),
        thing(4, 4, "forgotten", false, false),
        thing(-1, 9, "outside", false, true),
    ];
    assert_eq!(draw_order(&objects, &map, &fov), vec![1, 3, 0, 5]);
    assert!(is_shown(&objects[3], &map, &fov));
    assert!(!is_shown(&objects[4], &map, &fov));
    assert!(!is_shown(&objects[7], &map, &fov));
}

#[test]
fn render_marks_explored_before_choosing_what_to_draw() {
    let mut game =
        Game { map: solid_map(8, 6), messages: Messages::new(), inventory: vec![], dungeon_level: 1 };
    let objects = vec![thing(1, 1, "player", true, false), thing(2, 2, "stairs", false, true)];
    let order = render_all(&view_of(&[(1, 1), (2, 2)]), &mut game, &objects);
    assert_eq!(order, vec![1, 0]);
    assert!(game.map[2][2].explored);
    let order = render_all(&view_of(&[(1, 1)]), &mut game, &objects);
    assert_eq!(order, vec![1, 0]);
    assert!(game.map[2][2].explored);
    assert_eq!(game.messages.len(), 0);
}

#[test]
fn names_under_the_pointer() {
    let fov = view_of(&[(2, 2), (3, 3)]);
    let objects = vec![
        thing(2, 2, "player", true, false),
        thing(3, 3, "orc", true, false),
        thing(2, 2, "potion", false, true),
        thing(2, 2, "sword", false, true),
        thing(4, 4, "troll", true, false),
    ];
    assert_eq!(names_at(2, 2, &objects, &fov), "player, potion, sword");
    assert_eq!(names_at(3, 3, &objects, &fov), "orc");
    assert_eq!(names_at(4, 4, &objects, &fov), "");
    assert_eq!(names_at(1, 1, &objects, &fov), "");
}

#[test]
fn fov_grid_describes_the_level() {
    let mut map = solid_map(4, 3);
    set_tile(&mut map, 1, 1, Tile::empty());
    set_tile(&mut map, 2, 1, Tile { blocked: false, block_sight: true, explored: true });
    let fov = initialise_fov(&map);
    assert_eq!(fov.width(), 4);
    assert_eq!(fov.height(0), 3);
    assert_eq!(fov.cell(0, 0), FovCell { transparent: false, walkable: false, in_fov: false });
    assert_eq!(fov.cell(1, 1), FovCell { transparent: true, walkable: true, in_fov: false });
    assert_eq!(fov.cell(2, 1), FovCell { transparent: false, walkable: true, in_fov: false });
    assert!(!fov.is_in_fov(1, 1));
    assert!(!fov.is_in_fov(-1, 1));
    assert!(!fov.is_in_fov(4, 1));
    assert!(!fov.in_fov_at(1, 3));
}

#[test]
fn blocking_by_terrain_and_entities() {
    let mut map = solid_map(5, 5);
    dig(&mut map, 1, 3, 1, 3);
    let objects = vec![thing(2, 2, "orc", true, false), thing(3, 3, "potion", false, true)];
    assert!(is_blocked(0, 0, &map, &objects));
    assert!(!is_blocked(1, 1, &map, &objects));
    assert!(is_blocked(2, 2, &map, &objects));
    assert!(!is_blocked(3, 3, &map, &objects));
    assert!(is_blocked(-1, 2, &map, &objects));
    assert!(is_blocked(2, 5, &map, &objects));
    assert!(is_blocked(i32::MAX, i32::MIN, &map, &objects));
    assert_eq!(tile_at(&map, 1, 1), Some(Tile::empty()));
    assert_eq!(tile_at(&map, 0, 4), Some(Tile::wall()));
    assert_eq!(tile_at(&map, 5, 0), None);
    assert_eq!(tile_at(&map, 0, -1), None);
}

#[test]
fn tiles_are_as_documented() {
    assert_eq!(Tile::empty(), Tile { blocked: false, block_sight: false, explored: false });
    assert_eq!(Tile::wall(), Tile { blocked: true, block_sight: true, explored: false });
}
