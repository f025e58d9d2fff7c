use dungeon_core::colors::{red, white};
use dungeon_core::fov::{FovCell, FovMap};
use dungeon_core::messages::Messages;
use dungeon_core::objects::ai::{ai_basic, ai_confused, ai_take_turn, move_towards, step_toward, AI};
use dungeon_core::objects::fighter::{DeathCallback, Fighter};
use dungeon_core::objects::game::Game;
use dungeon_core::objects::move_by;
use dungeon_core::objects::object::Object;
use dungeon_core::tiles::{dig, solid_map};
use dungeon_core::controls::PlayerAction;
use dungeon_core::ui::{monsters_take_turns, world_reacts};

fn arena() -> Game {
    let mut map = solid_map(20, 20);
    dig(&mut map, 1, 18, 1, 18);
    Game { map, messages: Messages::new(), inventory: vec![], dungeon_level: 1 }
}

fn seen_all() -> FovMap {
    let cell = FovCell { transparent: true, walkable: true, in_fov: true };
    FovMap { cells: vec![vec![cell; 20]; 20] }
}

fn seen_none() -> FovMap {
    let cell = FovCell { transparent: true, walkable: true, in_fov: false };
    FovMap { cells: vec![vec![cell; 20]; 20] }
}

fn adventurer(x: i32, y: i32) -> Object {
    let mut o = Object::new(x, y, '@', "player", white(), true);
    o.alive = true;
    o.fighter = Some(Fighter { max_hp: 100, hp: 100, base_defense: 1, base_power: 2, xp: 0, on_death: DeathCallback::Player });
    o
}

fn troll(x: i32, y: i32) -> Object {
    let mut o = Object::new(x, y, 'T', "troll", white(), true);
    o.alive = true;
    o.fighter = Some(Fighter { max_hp: 30, hp: 30, base_defense: 2, base_power: 8, xp: 100, on_death: DeathCallback::Monster });
    o.ai = Some(AI::Basic);
    o
}

fn confused(turns: i32) -> AI {
    AI::Confused { previous_ai: Box::new(AI::Basic), num_turns: turns }
}

#[test]
fn confusion_wears_off_after_exactly_three_evaluations() {
    let mut game = arena();
    let mut objects = vec![adventurer(2, 2), troll(10, 10)];
    objects[1].ai = Some(confused(3));
    let fov = seen_all();
    let mut position = objects[1].pos();
    for left in [2, 1] {
        ai_take_turn(1, &fov, &mut game, &mut objects);
        assert_eq!(objects[1].ai, Some(confused(left)));
        let now = objects[1].pos();
        assert!((now.0 - position.0).abs() <= 1 && (now.1 - position.1).abs() <= 1);
        position = now;
        assert_eq!(game.messages.len(), 0);
    }
    ai_take_turn(1, &fov, &mut game, &mut objects);
    assert_eq!(objects[1].ai, Some(AI::Basic));
    let now = objects[1].pos();
    assert!((now.0 - position.0).abs() <= 1 && (now.1 - position.1).abs() <= 1);
    assert_eq!(game.messages.len(), 1);
    assert_eq!(game.messages.text(0), "The troll is no longer confused!");
    assert_eq!(game.messages.color(0), red());
}

#[test]
fn confused_step_follows_the_stumble_not_the_player() {
    let mut game = arena();
    let mut objects = vec![adventurer(2, 2), troll(10, 10)];
    objects[1].ai = Some(confused(5));
    ai_confused(1, 1, 1, &mut game, &mut objects);
    assert_eq!(objects[1].pos(), (11, 11));
    assert_eq!(objects[1].ai, Some(confused(4)));
    ai_confused(1, 0, 0, &mut game, &mut objects);
    assert_eq!(objects[1].pos(), (11, 11));
    ai_confused(1, -1, 0, &mut game, &mut objects);
    assert_eq!(objects[1].pos(), (10, 11));
    assert_eq!(objects[1].ai, Some(confused(2)));
    assert_eq!(objects[0].fighter.unwrap().hp, 100);
}

#[test]
fn confused_monster_does_not_walk_through_walls() {
    let mut game = arena();
    let mut objects = vec![adventurer(5, 5), troll(1, 1)];
    objects[1].ai = Some(confused(2));
    ai_confused(1, -1, 0, &mut game, &mut objects);
    assert_eq!(objects[1].pos(), (1, 1));
    assert_eq!(objects[1].ai, Some(confused(1)));
    ai_confused(1, 0, -1, &mut game, &mut objects);
    assert_eq!(objects[1].pos(), (1, 1));
    assert_eq!(objects[1].ai, Some(AI::Basic));
}

#[test]
fn spent_confusion_recovers_without_moving() {
    let mut game = arena();
    let mut objects = vec![adventurer(5, 5), troll(10, 10)];
    objects[1].ai = Some(confused(0));
    ai_confused(1, 1, 1, &mut game, &mut objects);
    assert_eq!(objects[1].pos(), (10, 10));
    assert_eq!(objects[1].ai, Some(AI::Basic));
    assert_eq!(game.messages.len(), 1);
}

#[test]
fn basic_monster_approaches_when_seen() {
    let mut game = arena();
    let mut objects = vec![adventurer(2, 2), troll(10, 2), troll(10, 10), troll(3, 12)];
    let fov = seen_all();
    ai_basic(1, &fov, &mut game, &mut objects);
    assert_eq!(objects[1].pos(), (9, 2));
    ai_basic(2, &fov, &mut game, &mut objects);
    assert_eq!(objects[2].pos(), (9, 9));
    ai_basic(3, &fov, &mut game, &mut objects);
    assert_eq!(objects[3].pos(), (3, 11));
    assert_eq!(objects[0].fighter.unwrap().hp, 100);
}

#[test]
fn basic_monster_outside_view_or_dead_does_nothing() {
    let mut game = arena();
    let mut objects = vec![adventurer(2, 2), troll(10, 2)];
    ai_basic(1, &seen_none(), &mut game, &mut objects);
    assert_eq!(objects[1].pos(), (10, 2));
    objects[1].alive = false;
    ai_basic(1, &seen_all(), &mut game, &mut objects);
    assert_eq!(objects[1].pos(), (10, 2));
    objects[1].set_pos(3, 2);
    ai_basic(1, &seen_all(), &mut game, &mut objects);
    assert_eq!(objects[0].fighter.unwrap().hp, 100);
    assert_eq!(game.messages.len(), 0);
}

#[test]
fn adjacent_monster_attacks_living_player() {
    let mut game = arena();
    let mut objects = vec![adventurer(2, 2), troll(3, 3)];
    ai_take_turn(1, &seen_all(), &mut game, &mut objects);
    assert_eq!(objects[1].pos(), (3, 3));
    assert_eq!(objects[0].fighter.unwrap().hp, 93);
    assert_eq!(game.messages.text(0), "troll attacks player for 7 hit points.");
    objects[0].fighter.as_mut().unwrap().hp = 0;
    ai_take_turn(1, &seen_all(), &mut game, &mut objects);
    assert_eq!(objects[0].fighter.unwrap().hp, 0);
    assert_eq!(game.messages.len(), 1);
}

#[test]
fn monster_kills_player_and_takes_experience() {
    let mut game = arena();
    let mut objects = vec![adventurer(2, 2), troll(2, 3)];
    objects[0].fighter.as_mut().unwrap().hp = 5;
    objects[0].fighter.as_mut().unwrap().xp = 11;
    ai_take_turn(1, &seen_all(), &mut game, &mut objects);
    assert!(!objects[0].alive);
    assert_eq!(objects[0].char, '%');
    assert_eq!(objects[1].fighter.unwrap().xp, 111);
    assert_eq!(game.messages.text(1), "You died!");
}

#[test]
fn monster_step_is_blocked_by_other_monsters() {
    let mut game = arena();
    let mut objects = vec![adventurer(2, 2), troll(5, 2), troll(4, 2)];
    ai_basic(1, &seen_all(), &mut game, &mut objects);
    assert_eq!(objects[1].pos(), (5, 2));
    ai_basic(2, &seen_all(), &mut game, &mut objects);
    assert_eq!(objects[2].pos(), (3, 2));
    ai_basic(1, &seen_all(), &mut game, &mut objects);
    assert_eq!(objects[1].pos(), (4, 2));
}

#[test]
fn greedy_step_rounds_to_nearest_neighbour() {
    assert_eq!((step_toward(8, 0), step_toward(0, 8)), (1, 0));
    assert_eq!((step_toward(-8, 8), step_toward(8, -8)), (-1, 1));
    assert_eq!((step_toward(5, 2), step_toward(2, 5)), (1, 0));
    assert_eq!((step_toward(4, 3), step_toward(3, 4)), (1, 1));
    assert_eq!((step_toward(0, 0), step_toward(0, 0)), (0, 0));
    assert_eq!((step_toward(1, -2), step_toward(-2, 1)), (0, -1));
    assert_eq!((step_toward(7, 12), step_toward(12, 7)), (1, 1));
    assert_eq!((step_toward(7, 13), step_toward(13, 7)), (0, 1));
}

#[test]
fn move_towards_and_move_by_respect_blocking() {
    let game = arena();
    let mut objects = vec![adventurer(2, 2), troll(10, 10)];
    move_towards(1, 2, 2, &game.map, &mut objects);
    assert_eq!(objects[1].pos(), (9, 9));
    move_by(0, -1, 0, &game.map, &mut objects);
    assert_eq!(objects[0].pos(), (1, 2));
    move_by(0, -1, 0, &game.map, &mut objects);
    assert_eq!(objects[0].pos(), (1, 2));
    objects[1].set_pos(1, 3);
    move_by(0, 0, 1, &game.map, &mut objects);
    assert_eq!(objects[0].pos(), (1, 2));
    objects[1].blocks = false;
    move_by(0, 0, 1, &game.map, &mut objects);
    assert_eq!(objects[0].pos(), (1, 3));
    let mut edge = vec![Object::new(i32::MAX, 0, 'e', "edge", white(), false)];
    move_by(0, 1, 0, &game.map, &mut edge);
    assert_eq!(edge[0].pos(), (i32::MAX, 0));
}

#[test]
fn every_monster_acts_once_in_order() {
    let mut game = arena();
    let mut corpse = troll(8, 8);
    corpse.ai = None;
    corpse.alive = false;
    let mut objects = vec![adventurer(2, 2), troll(3, 2), corpse, troll(2, 3), troll(12, 2)];
    monsters_take_turns(&seen_all(), &mut game, &mut objects);
    assert_eq!(objects[0].fighter.unwrap().hp, 86);
    assert_eq!(game.messages.len(), 2);
    assert_eq!(objects[2].pos(), (8, 8));
    assert_eq!(objects[4].pos(), (11, 2));
    assert_eq!(objects.len(), 5);
}

#[test]
fn world_answers_only_a_turn_of_the_living() {
    let mut game = arena();
    let mut objects = vec![adventurer(2, 2), troll(10, 2)];
    let fov = seen_all();
    assert!(!world_reacts(PlayerAction::DidntTakeTurn, &fov, &mut game, &mut objects));
    assert!(!world_reacts(PlayerAction::Exit, &fov, &mut game, &mut objects));
    assert_eq!(objects[1].pos(), (10, 2));
    assert!(world_reacts(PlayerAction::TookTurn, &fov, &mut game, &mut objects));
    assert_eq!(objects[1].pos(), (9, 2));
    objects[0].alive = false;
    assert!(!world_reacts(PlayerAction::TookTurn, &fov, &mut game, &mut objects));
    assert_eq!(objects[1].pos(), (9, 2));
}
