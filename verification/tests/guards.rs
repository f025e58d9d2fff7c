use dungeon_core::colors::white;
use dungeon_core::controls::{Key, KeyCode, PlayerAction};
use dungeon_core::fov::{FovCell, FovMap};
use dungeon_core::guards::{
    attack_is_safe, blast_is_safe, descent_is_safe, effective_wide, in_range, key_is_safe,
    level_up_is_safe, reaction_is_safe, step_is_safe, strike_is_safe, turns_are_safe,
    use_is_safe,
};
use dungeon_core::messages::Messages;
use dungeon_core::objects::ai::AI;
use dungeon_core::objects::equipment::{Equipment, Slot};
use dungeon_core::objects::fighter::{DeathCallback, Fighter};
use dungeon_core::objects::game::Game;
use dungeon_core::objects::item::{Item, Target};
use dungeon_core::objects::object::{Object, Stat};
use dungeon_core::objects::player::LevelUpChoice;
use dungeon_core::tiles::solid_map;

fn plain_game() -> Game {
    Game { map: solid_map(12, 12), messages: Messages::new(), inventory: vec![], dungeon_level: 1 }
}

fn fighter(x: i32, name: &str, hp: i32, defense: i32, power: i32, xp: i32, on_death: DeathCallback) -> Object {
    let mut o = Object::new(x, 5, 'f', name, white(), true);
    o.alive = true;
    o.fighter = Some(Fighter { max_hp: 100, hp, base_defense: defense, base_power: power, xp, on_death });
    o
}

fn charm(power: i32) -> Object {
    let mut o = Object::new(0, 0, '*', "charm", white(), false);
    o.item = Some(Item::Sword);
    o.equipment = Some(Equipment { slot: Slot::Head, equipped: true, power_bonus: power, defense_bonus: 0, hp_bonus: power });
    o
}

fn bright() -> FovMap {
    let cell = FovCell { transparent: true, walkable: true, in_fov: true };
    FovMap { cells: vec![vec![cell; 12]; 12] }
}

#[test]
fn range_test_is_exact() {
    assert!(in_range(i32::MAX as i128) && in_range(i32::MIN as i128) && in_range(0));
    assert!(!in_range(i32::MAX as i128 + 1) && !in_range(i32::MIN as i128 - 1));
}

#[test]
fn wide_statistics_do_not_overflow() {
    let mut game = plain_game();
    game.inventory.push(charm(i32::MAX));
    game.inventory.push(charm(i32::MAX));
    let hero = fighter(1, "player", 50, 0, i32::MAX, 0, DeathCallback::Player);
    assert_eq!(effective_wide(&hero, Stat::Power, &game), 3 * (i32::MAX as i128));
    assert_eq!(effective_wide(&hero, Stat::Defense, &game), 0);
    let orc = fighter(2, "Orc", 50, 0, 4, 0, DeathCallback::Monster);
    assert_eq!(effective_wide(&orc, Stat::Power, &game), 4);
    assert!(!attack_is_safe(&hero, &orc, &game));
    assert!(attack_is_safe(&orc, &hero, &game));
}

#[test]
fn attack_guard_watches_every_number() {
    let game = plain_game();
    let a = fighter(1, "a", 50, 0, 10, 0, DeathCallback::Monster);
    let b = fighter(2, "b", 50, 4, 0, 0, DeathCallback::Monster);
    assert!(attack_is_safe(&a, &b, &game));
    let strong = fighter(1, "a", 50, 0, i32::MAX, 0, DeathCallback::Monster);
    let brittle = fighter(2, "b", 50, -1, 0, 0, DeathCallback::Monster);
    assert!(!attack_is_safe(&strong, &brittle, &game));
    let sunk = fighter(2, "b", i32::MIN + 3, 0, 0, 0, DeathCallback::Monster);
    assert!(!attack_is_safe(&a, &sunk, &game));
    let rich = fighter(1, "a", 50, 0, 100, i32::MAX, DeathCallback::Monster);
    let prize = fighter(2, "b", 5, 0, 0, 1, DeathCallback::Monster);
    assert!(!attack_is_safe(&rich, &prize, &game));
    let mut ghost = Object::new(1, 5, 'g', "ghost", white(), false);
    assert!(attack_is_safe(&ghost, &prize, &game));
    ghost.fighter = None;
    let weak = fighter(2, "b", 5, -10, 0, 1, DeathCallback::Monster);
    assert!(!attack_is_safe(&ghost, &weak, &game));
}

#[test]
fn step_and_key_guards() {
    let game = plain_game();
    let objects = vec![fighter(5, "player", 50, 0, 5, 0, DeathCallback::Player), fighter(6, "Orc", 5, 0, 1, 35, DeathCallback::Monster)];
    assert!(step_is_safe(1, 0, &game, &objects));
    assert!(step_is_safe(-1, 0, &game, &objects));
    assert!(!step_is_safe(0, 0, &game, &objects));
    assert!(!step_is_safe(1, 0, &game, &vec![]));
    let mut rich = vec![fighter(5, "player", 50, 0, 5, i32::MAX, DeathCallback::Player), fighter(6, "Orc", 5, 0, 1, 35, DeathCallback::Monster)];
    assert!(!step_is_safe(1, 0, &game, &rich));
    assert!(step_is_safe(0, 1, &game, &rich));
    assert!(!key_is_safe(Key { code: KeyCode::Right, alt: false }, &game, &rich));
    assert!(key_is_safe(Key { code: KeyCode::Left, alt: false }, &game, &rich));
    assert!(key_is_safe(Key { code: KeyCode::Escape, alt: false }, &game, &rich));
    rich[0].alive = false;
    assert!(key_is_safe(Key { code: KeyCode::Right, alt: false }, &game, &rich));
    assert!(!key_is_safe(Key { code: KeyCode::Other, alt: false }, &game, &vec![]));
}

#[test]
fn turn_guards() {
    let game = plain_game();
    let mut monster = fighter(6, "Orc", 5, 0, 3, 35, DeathCallback::Monster);
    monster.ai = Some(AI::Basic);
    let objects = vec![fighter(5, "player", 50, 0, 5, 0, DeathCallback::Player), monster];
    assert!(turns_are_safe(&game, &objects));
    assert!(reaction_is_safe(PlayerAction::TookTurn, &game, &objects));
    let mut greedy = fighter(6, "Orc", 5, 0, 3, i32::MAX, DeathCallback::Monster);
    greedy.ai = Some(AI::Basic);
    let objects = vec![fighter(5, "player", 50, 0, 5, 1, DeathCallback::Player), greedy];
    assert!(!turns_are_safe(&game, &objects));
    assert!(!reaction_is_safe(PlayerAction::TookTurn, &game, &objects));
    assert!(reaction_is_safe(PlayerAction::DidntTakeTurn, &game, &objects));
    let mut thinking = fighter(5, "player", 50, 0, 5, 1, DeathCallback::Player);
    thinking.ai = Some(AI::Basic);
    assert!(!turns_are_safe(&game, &vec![thinking]));
    assert!(!turns_are_safe(&game, &vec![]));
    assert!(!reaction_is_safe(PlayerAction::Exit, &game, &vec![]));
}

#[test]
fn level_up_and_descent_guards() {
    let mut game = plain_game();
    let objects = vec![fighter(5, "player", 50, 0, 5, 350, DeathCallback::Player)];
    assert!(level_up_is_safe(LevelUpChoice::MaxHp, &objects));
    assert!(descent_is_safe(&game, &objects));
    assert!(!level_up_is_safe(LevelUpChoice::Power, &vec![fighter(5, "player", 50, 0, i32::MAX, 350, DeathCallback::Player)]));
    assert!(!level_up_is_safe(LevelUpChoice::Defense, &vec![fighter(5, "player", 50, i32::MAX, 0, 350, DeathCallback::Player)]));
    assert!(level_up_is_safe(LevelUpChoice::MaxHp, &vec![fighter(5, "player", 50, i32::MAX, i32::MAX, 350, DeathCallback::Player)]));
    let mut tall = fighter(5, "player", 50, 0, 0, 350, DeathCallback::Player);
    tall.fighter.as_mut().unwrap().max_hp = i32::MAX - 19;
    assert!(!level_up_is_safe(LevelUpChoice::MaxHp, &vec![tall]));
    let mut low = fighter(5, "player", 50, 0, 0, i32::MAX, DeathCallback::Player);
    low.level = -3;
    assert!(!level_up_is_safe(LevelUpChoice::Power, &vec![low]));
    let mut ghost = Object::new(0, 0, '@', "ghost", white(), false);
    ghost.level = -2;
    assert!(!level_up_is_safe(LevelUpChoice::Power, &vec![ghost]));
    let short = vec![fighter(5, "player", 50, 0, i32::MAX, 349, DeathCallback::Player)];
    assert!(level_up_is_safe(LevelUpChoice::Power, &short));
    let mut top = fighter(5, "player", 50, 0, i32::MAX, i32::MAX, DeathCallback::Player);
    top.level = i32::MAX;
    assert!(level_up_is_safe(LevelUpChoice::Power, &vec![top]));
    game.dungeon_level = u32::MAX;
    assert!(!descent_is_safe(&game, &objects));
    game.dungeon_level = 3;
    game.inventory.push(charm(i32::MAX));
    assert!(descent_is_safe(&game, &objects));
    let mut sunk = fighter(5, "player", i32::MIN, 0, 0, 0, DeathCallback::Player);
    sunk.fighter.as_mut().unwrap().max_hp = -10;
    assert!(!descent_is_safe(&game, &vec![sunk]));
    assert!(!descent_is_safe(&game, &vec![]));
}

#[test]
fn spell_guards() {
    let mut game = plain_game();
    let mut prey = fighter(6, "Orc", 5, 0, 1, 35, DeathCallback::Monster);
    prey.ai = Some(AI::Basic);
    let mut objects = vec![fighter(5, "player", 50, 0, 5, 0, DeathCallback::Player), prey];
    assert!(strike_is_safe(&objects, 1, 40));
    assert!(blast_is_safe(&objects, 5, 5));
    objects[0].fighter.as_mut().unwrap().xp = i32::MAX;
    assert!(!strike_is_safe(&objects, 1, 40));
    assert!(strike_is_safe(&objects, 1, 4));
    assert!(!blast_is_safe(&objects, 5, 5));
    assert!(blast_is_safe(&objects, 0, 0));
    for kind in [Item::Heal, Item::Lightning, Item::Confuse, Item::Fireball, Item::Sword, Item::Shield] {
        let mut scroll = Object::new(0, 0, '#', "scroll", white(), false);
        scroll.item = Some(kind);
        game.inventory.push(scroll);
    }
    let fov = bright();
    assert!(use_is_safe(0, Target::Nothing, &fov, &game, &objects));
    assert!(!use_is_safe(1, Target::Nothing, &fov, &game, &objects));
    assert!(use_is_safe(2, Target::Monster(1), &fov, &game, &objects));
    assert!(!use_is_safe(2, Target::Monster(2), &fov, &game, &objects));
    assert!(use_is_safe(2, Target::Nothing, &fov, &game, &objects));
    assert!(!use_is_safe(3, Target::Tile(5, 5), &fov, &game, &objects));
    assert!(use_is_safe(3, Target::Tile(0, 0), &fov, &game, &objects));
    assert!(use_is_safe(3, Target::Nothing, &fov, &game, &objects));
    assert!(use_is_safe(4, Target::Nothing, &fov, &game, &objects));
    assert!(use_is_safe(5, Target::Nothing, &fov, &game, &objects));
    assert!(!use_is_safe(0, Target::Nothing, &fov, &game, &vec![]));
}
