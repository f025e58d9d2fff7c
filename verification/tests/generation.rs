use dungeon_core::constants::{MAP_HEIGHT, MAP_WIDTH, MAX_ROOMS, ROOM_MAX_SIZE, ROOM_MIN_SIZE};
use dungeon_core::colors::white;
use dungeon_core::geometry::Rect;
use dungeon_core::map_generation::make_map::{generate_level, make_map};
use dungeon_core::map_generation::spawn::{from_dungeon_level, Transition};
use dungeon_core::objects::object::Object;
use dungeon_core::tiles::Tile;

fn player() -> Object {
    let mut player = Object::new(0, 0, '@', "player", white(), true);
    player.alive = true;
    player
}

#[test]
fn generated_rooms_never_overlap() {
    for level in 1..6 {
        let mut objects = vec![player()];
        let (_map, rooms) = generate_level(&mut objects, level);
        assert!(!rooms.is_empty());
        assert!(rooms.len() <= MAX_ROOMS as usize);
        for i in 0..rooms.len() {
            assert!(rooms[i].x2 - rooms[i].x1 >= ROOM_MIN_SIZE);
            assert!(rooms[i].x2 - rooms[i].x1 <= ROOM_MAX_SIZE);
            assert!(rooms[i].x1 >= 0 && rooms[i].x2 < MAP_WIDTH);
            assert!(rooms[i].y1 >= 0 && rooms[i].y2 < MAP_HEIGHT);
            for j in (i + 1)..rooms.len() {
                assert!(!rooms[i].intersects_with(&rooms[j]));
                assert!(!rooms[j].intersects_with(&rooms[i]));
            }
        }
    }
}

#[test]
fn player_spawns_in_first_room_and_stairs_in_last() {
    let mut objects = vec![player(), Object::new(3, 3, 'x', "leftover", white(), true)];
    let (map, rooms) = generate_level(&mut objects, 1);
    assert_eq!(objects[0].pos(), rooms[0].center());
    assert_eq!(objects[0].name, "player");
    assert!(objects[0].alive);
    let stairs = &objects[objects.len() - 1];
    assert_eq!(stairs.pos(), rooms[rooms.len() - 1].center());
    assert_eq!(stairs.name, "stairs");
    assert_eq!(stairs.char, '<');
    assert!(stairs.always_visible);
    assert!(!stairs.blocks);
    assert!(objects.iter().all(|o| o.name != "leftover"));
    let (px, py) = objects[0].pos();
    assert_eq!(map[px as usize][py as usize], Tile::empty());
}

#[test]
fn generated_map_has_standard_size_and_walled_border() {
    let mut objects = vec![player()];
    let map = make_map(&mut objects, 3);
    assert_eq!(map.len(), MAP_WIDTH as usize);
    for x in 0..map.len() {
        assert_eq!(map[x].len(), MAP_HEIGHT as usize);
        for y in 0..map[x].len() {
            let on_border = x == 0 || y == 0 || x == map.len() - 1 || y == map[x].len() - 1;
            if on_border {
                assert_eq!(map[x][y], Tile::wall());
            }
            assert!(map[x][y] == Tile::wall() || map[x][y] == Tile::empty());
        }
    }
}

#[test]
fn rect_center_and_overlap() {
    let a = Rect::new(2, 3, 6, 8);
    assert_eq!((a.x1, a.y1, a.x2, a.y2), (2, 3, 8, 11));
    assert_eq!(a.center(), (5, 7));
    let touching = Rect::new(8, 3, 6, 6);
    assert!(a.intersects_with(&touching));
    let apart = Rect::new(9, 3, 6, 6);
    assert!(!a.intersects_with(&apart));
}

#[test]
fn depth_table_picks_highest_threshold_reached() {
    let table = [
        Transition { level: 1, value: 2 },
        Transition { level: 4, value: 3 },
        Transition { level: 6, value: 5 },
    ];
    assert_eq!(from_dungeon_level(&table, 0), 0);
    assert_eq!(from_dungeon_level(&table, 1), 2);
    assert_eq!(from_dungeon_level(&table, 3), 2);
    assert_eq!(from_dungeon_level(&table, 4), 3);
    assert_eq!(from_dungeon_level(&table, 5), 3);
    assert_eq!(from_dungeon_level(&table, 6), 5);
    assert_eq!(from_dungeon_level(&table, 100), 5);
    assert_eq!(from_dungeon_level(&[], 7), 0);
}
