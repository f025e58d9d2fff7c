use dungeon_core::colors::{green, red, white, yellow};
use dungeon_core::constants::{LEVEL_UP_BASE, LEVEL_UP_FACTOR};
use dungeon_core::controls::{handle_keys, Key, KeyCode, PlayerAction};
use dungeon_core::messages::Messages;
use dungeon_core::objects::ai::AI;
use dungeon_core::objects::equipment::{Equipment, Slot};
use dungeon_core::objects::fighter::{DeathCallback, Fighter};
use dungeon_core::objects::game::Game;
use dungeon_core::objects::item::Item;
use dungeon_core::objects::object::Object;
use dungeon_core::objects::player::{
    drop_item, find_fighter_at, level_up, level_up_due, level_up_xp, pick_item_up,
    player_move_or_attack, LevelUpChoice,
};
use dungeon_core::tiles::{dig, solid_map};

fn cave() -> Game {
    let mut map = solid_map(12, 12);
    dig(&mut map, 1, 10, 1, 10);
    Game { map, messages: Messages::new(), inventory: vec![], dungeon_level: 1 }
}

fn explorer(x: i32, y: i32, xp: i32) -> Object {
    let mut o = Object::new(x, y, '@', "player", white(), true);
    o.alive = true;
    o.fighter = Some(Fighter { max_hp: 100, hp: 60, base_defense: 1, base_power: 2, xp, on_death: DeathCallback::Player });
    o
}

fn goblin(x: i32, y: i32, hp: i32) -> Object {
    let mut o = Object::new(x, y, 'g', "goblin", white(), true);
    o.alive = true;
    o.fighter = Some(Fighter { max_hp: hp, hp, base_defense: 0, base_power: 3, xp: 20, on_death: DeathCallback::Monster });
    o.ai = Some(AI::Basic);
    o
}

fn trinket(name: &str, x: i32, y: i32) -> Object {
    let mut o = Object::new(x, y, '!', name, white(), false);
    o.item = Some(Item::Heal);
    o
}

fn press(code: KeyCode) -> Key {
    Key { code, alt: false }
}

#[test]
fn player_moves_onto_free_tile() {
    let mut game = cave();
    let mut objects = vec![explorer(5, 5, 0), goblin(8, 8, 10), trinket("potion", 5, 6)];
    player_move_or_attack(0, 1, &mut game, &mut objects);
    assert_eq!(objects[0].pos(), (5, 6));
    player_move_or_attack(1, 0, &mut game, &mut objects);
    assert_eq!(objects[0].pos(), (6, 6));
    assert_eq!(game.messages.len(), 0);
}

#[test]
fn player_does_not_walk_into_walls() {
    let mut game = cave();
    let mut objects = vec![explorer(1, 1, 0)];
    player_move_or_attack(-1, 0, &mut game, &mut objects);
    player_move_or_attack(0, -1, &mut game, &mut objects);
    assert_eq!(objects[0].pos(), (1, 1));
}

#[test]
fn player_attacks_fighter_in_the_way() {
    let mut game = cave();
    let mut objects = vec![explorer(5, 5, 0), goblin(6, 5, 10), goblin(6, 5, 10)];
    player_move_or_attack(1, 0, &mut game, &mut objects);
    assert_eq!(objects[0].pos(), (5, 5));
    assert_eq!(objects[1].fighter.unwrap().hp, 8);
    assert_eq!(objects[2].fighter.unwrap().hp, 10);
    assert_eq!(game.messages.text(0), "player attacks goblin for 2 hit points.");
    assert_eq!(find_fighter_at(&objects, 6, 5), Some(1));
    assert_eq!(find_fighter_at(&objects, 7, 5), None);
}

#[test]
fn player_walks_over_remains() {
    let mut game = cave();
    let mut objects = vec![explorer(5, 5, 0), goblin(6, 5, 2)];
    player_move_or_attack(1, 0, &mut game, &mut objects);
    assert!(!objects[1].alive);
    assert_eq!(objects[0].fighter.unwrap().xp, 20);
    player_move_or_attack(1, 0, &mut game, &mut objects);
    assert_eq!(objects[0].pos(), (6, 5));
}

#[test]
fn arrow_keys_take_a_turn_for_the_living() {
    let mut game = cave();
    let mut objects = vec![explorer(5, 5, 0)];
    assert_eq!(handle_keys(press(KeyCode::Up), &mut game, &mut objects), PlayerAction::TookTurn);
    assert_eq!(objects[0].pos(), (5, 4));
    assert_eq!(handle_keys(press(KeyCode::Right), &mut game, &mut objects), PlayerAction::TookTurn);
    assert_eq!(objects[0].pos(), (6, 4));
    assert_eq!(handle_keys(press(KeyCode::Down), &mut game, &mut objects), PlayerAction::TookTurn);
    assert_eq!(objects[0].pos(), (6, 5));
    assert_eq!(handle_keys(press(KeyCode::Left), &mut game, &mut objects), PlayerAction::TookTurn);
    assert_eq!(objects[0].pos(), (5, 5));
    assert_eq!(handle_keys(press(KeyCode::Other), &mut game, &mut objects), PlayerAction::DidntTakeTurn);
    assert_eq!(handle_keys(press(KeyCode::Enter), &mut game, &mut objects), PlayerAction::DidntTakeTurn);
    assert_eq!(objects[0].pos(), (5, 5));
}

#[test]
fn escape_exits_and_fullscreen_takes_no_turn() {
    let mut game = cave();
    let mut objects = vec![explorer(5, 5, 0)];
    assert_eq!(handle_keys(press(KeyCode::Escape), &mut game, &mut objects), PlayerAction::Exit);
    let toggle = Key { code: KeyCode::Enter, alt: true };
    assert!(toggle.toggles_fullscreen());
    assert!(!press(KeyCode::Enter).toggles_fullscreen());
    assert!(!Key { code: KeyCode::Up, alt: true }.toggles_fullscreen());
    assert_eq!(handle_keys(toggle, &mut game, &mut objects), PlayerAction::DidntTakeTurn);
    assert_eq!(handle_keys(Key { code: KeyCode::Escape, alt: true }, &mut game, &mut objects), PlayerAction::Exit);
    assert_eq!(objects[0].pos(), (5, 5));
}

#[test]
fn the_dead_do_not_move() {
    let mut game = cave();
    let mut objects = vec![explorer(5, 5, 0)];
    objects[0].alive = false;
    assert_eq!(handle_keys(press(KeyCode::Up), &mut game, &mut objects), PlayerAction::DidntTakeTurn);
    assert_eq!(objects[0].pos(), (5, 5));
    assert_eq!(handle_keys(press(KeyCode::Escape), &mut game, &mut objects), PlayerAction::Exit);
}

#[test]
fn picking_up_moves_item_into_inventory() {
    let mut game = cave();
    let mut objects = vec![explorer(5, 5, 0), trinket("potion", 5, 5), goblin(7, 7, 5), trinket("scroll", 2, 2)];
    pick_item_up(1, &mut game, &mut objects);
    assert_eq!(game.inventory.len(), 1);
    assert_eq!(game.inventory[0].name, "potion");
    assert_eq!(objects.len(), 3);
    assert_eq!(objects[0].name, "player");
    assert_eq!(objects[1].name, "scroll");
    assert_eq!(objects[2].name, "goblin");
    assert_eq!(game.messages.text(0), "You picked up a potion!");
    assert_eq!(game.messages.color(0), green());
}

#[test]
fn full_inventory_refuses_more() {
    let mut game = cave();
    for i in 0..26 {
        game.inventory.push(trinket(&format!("item {}", i), 0, 0));
    }
    let mut objects = vec![explorer(5, 5, 0), trinket("potion", 5, 5)];
    pick_item_up(1, &mut game, &mut objects);
    assert_eq!(game.inventory.len(), 26);
    assert_eq!(objects.len(), 2);
    assert_eq!(game.messages.text(0), "Your inventory is full, cannot pick up potion.");
    assert_eq!(game.messages.color(0), red());
}

#[test]
fn dropping_puts_item_at_the_players_feet() {
    let mut game = cave();
    game.inventory.push(trinket("potion", 0, 0));
    let mut sword = trinket("sword", 0, 0);
    sword.equipment = Some(Equipment { slot: Slot::RightHand, equipped: true, power_bonus: 3, defense_bonus: 0, hp_bonus: 0 });
    game.inventory.push(sword);
    let mut objects = vec![explorer(4, 7, 0)];
    drop_item(1, &mut game, &mut objects);
    assert_eq!(game.inventory.len(), 1);
    assert_eq!(game.inventory[0].name, "potion");
    assert_eq!(objects.len(), 2);
    assert_eq!(objects[1].name, "sword");
    assert_eq!(objects[1].pos(), (4, 7));
    assert_eq!(game.messages.text(0), "You dropped a sword.");
    assert_eq!(game.messages.color(0), yellow());
}

#[test]
fn threshold_uses_the_level_before_the_rise() {
    assert_eq!(level_up_xp(1), LEVEL_UP_BASE + LEVEL_UP_FACTOR);
    assert_eq!(level_up_xp(1), 350);
    assert_eq!(level_up_xp(2), 500);
    assert_eq!(level_up_xp(0), 200);
    assert_eq!(level_up_xp(10), 1700);
}

#[test]
fn experience_at_threshold_levels_up_exactly_once() {
    let mut game = cave();
    let mut objects = vec![explorer(5, 5, 350)];
    assert!(level_up_due(&objects));
    assert!(level_up(LevelUpChoice::Power, &mut game, &mut objects));
    assert_eq!(objects[0].level, 2);
    assert_eq!(objects[0].fighter.unwrap().xp, 0);
    assert_eq!(objects[0].fighter.unwrap().base_power, 3);
    assert_eq!(game.messages.text(0), "Your battle skills grow stronger! You reached level 2!");
    assert_eq!(game.messages.color(0), yellow());
    assert!(!level_up_due(&objects));
    assert!(!level_up(LevelUpChoice::Power, &mut game, &mut objects));
    assert_eq!(objects[0].level, 2);
    assert_eq!(objects[0].fighter.unwrap().base_power, 3);
    assert_eq!(game.messages.len(), 1);
}

#[test]
fn experience_one_below_threshold_does_not_level_up() {
    let mut game = cave();
    let mut objects = vec![explorer(5, 5, 349)];
    assert!(!level_up_due(&objects));
    assert!(!level_up(LevelUpChoice::MaxHp, &mut game, &mut objects));
    assert_eq!(objects[0].level, 1);
    assert_eq!(objects[0].fighter.unwrap().xp, 349);
    assert_eq!(objects[0].fighter.unwrap().max_hp, 100);
    assert_eq!(game.messages.len(), 0);
}

#[test]
fn large_gain_levels_up_repeatedly() {
    let mut game = cave();
    let mut objects = vec![explorer(5, 5, 350 + 500 + 10)];
    assert!(level_up(LevelUpChoice::Defense, &mut game, &mut objects));
    assert!(level_up_due(&objects));
    assert!(level_up(LevelUpChoice::Defense, &mut game, &mut objects));
    assert!(!level_up_due(&objects));
    assert_eq!(objects[0].level, 3);
    assert_eq!(objects[0].fighter.unwrap().xp, 10);
    assert_eq!(objects[0].fighter.unwrap().base_defense, 3);
}

#[test]
fn hit_point_choice_raises_maximum_and_heals_fully() {
    let mut game = cave();
    let mut helmet = trinket("helmet", 0, 0);
    helmet.equipment = Some(Equipment { slot: Slot::Head, equipped: true, power_bonus: 0, defense_bonus: 0, hp_bonus: 7 });
    game.inventory.push(helmet);
    let mut objects = vec![explorer(5, 5, 400)];
    assert!(level_up(LevelUpChoice::MaxHp, &mut game, &mut objects));
    let fighter = objects[0].fighter.unwrap();
    assert_eq!(fighter.max_hp, 120);
    assert_eq!(fighter.hp, 120);
    assert_eq!(fighter.xp, 50);
    assert_eq!((fighter.base_power, fighter.base_defense), (2, 1));
    assert_eq!(objects[0].level, 2);
}

#[test]
fn level_up_raises_exactly_the_chosen_statistic() {
    for (choice, expected) in [
        (LevelUpChoice::MaxHp, (120, 120, 1, 2)),
        (LevelUpChoice::Power, (100, 60, 1, 3)),
        (LevelUpChoice::Defense, (100, 60, 2, 2)),
    ] {
        let mut game = cave();
        let mut objects = vec![explorer(5, 5, 350), goblin(7, 7, 9)];
        assert!(level_up(choice, &mut game, &mut objects));
        let f = objects[0].fighter.unwrap();
        assert_eq!((f.max_hp, f.hp, f.base_defense, f.base_power), expected);
        assert_eq!((f.xp, objects[0].level), (0, 2));
        assert_eq!((objects[0].name.as_str(), objects[0].pos(), objects[0].alive), ("player", (5, 5), true));
        assert_eq!(objects[1].fighter.unwrap().hp, 9);
        assert_eq!(game.messages.len(), 1);
    }
}

#[test]
fn level_up_works_for_any_level_the_threshold_allows() {
    let mut game = cave();
    let mut objects = vec![explorer(5, 5, -100)];
    objects[0].level = -2;
    assert!(level_up_due(&objects));
    assert!(level_up(LevelUpChoice::Power, &mut game, &mut objects));
    assert_eq!((objects[0].level, objects[0].fighter.unwrap().xp), (-1, 0));
    assert!(!level_up_due(&objects));
    let mut far = vec![explorer(5, 5, i32::MAX)];
    far[0].level = i32::MAX;
    assert!(!level_up_due(&far));
    assert!(!level_up(LevelUpChoice::Power, &mut game, &mut far));
    assert_eq!(far[0].level, i32::MAX);
}

#[test]
fn menu_positions_map_to_choices() {
    assert_eq!(LevelUpChoice::from_index(0), Some(LevelUpChoice::MaxHp));
    assert_eq!(LevelUpChoice::from_index(1), Some(LevelUpChoice::Power));
    assert_eq!(LevelUpChoice::from_index(2), Some(LevelUpChoice::Defense));
    assert_eq!(LevelUpChoice::from_index(3), None);
}
