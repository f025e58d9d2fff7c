use dungeon_core::colors::{dark_red, orange, red, white};
use dungeon_core::messages::Messages;
use dungeon_core::misc::mut_two;
use dungeon_core::objects::ai::AI;
use dungeon_core::objects::equipment::{Equipment, Slot};
use dungeon_core::objects::fighter::{DeathCallback, Fighter};
use dungeon_core::objects::game::Game;
use dungeon_core::objects::item::Item;
use dungeon_core::objects::object::{Object, Stat};
use dungeon_core::tiles::solid_map;

fn combat_game() -> Game {
    Game { map: solid_map(5, 5), messages: Messages::new(), inventory: vec![], dungeon_level: 1 }
}

fn combatant(name: &str, hp: i32, defense: i32, power: i32, xp: i32, on_death: DeathCallback) -> Object {
    let mut o = Object::new(1, 1, 'c', name, white(), true);
    o.alive = true;
    o.fighter = Some(Fighter { max_hp: hp, hp, base_defense: defense, base_power: power, xp, on_death });
    o
}

fn worn(slot: Slot, power: i32, defense: i32, hp: i32, equipped: bool) -> Object {
    let mut o = Object::new(0, 0, '/', "gear", white(), false);
    o.item = Some(Item::Sword);
    o.equipment = Some(Equipment { slot, equipped, power_bonus: power, defense_bonus: defense, hp_bonus: hp });
    o
}

#[test]
fn weak_attack_has_no_effect() {
    let mut game = combat_game();
    let mut a = combatant("a", 30, 0, 5, 0, DeathCallback::Monster);
    let mut b = combatant("b", 30, 10, 0, 7, DeathCallback::Monster);
    a.attack(&mut b, &mut game);
    assert_eq!(b.fighter.unwrap().hp, 30);
    assert!(b.alive);
    assert_eq!(a.fighter.unwrap().xp, 0);
    assert_eq!(game.messages.len(), 1);
    assert_eq!(game.messages.text(0), "a attacks b but it has no effect!");
    assert_eq!(game.messages.color(0), white());
}

#[test]
fn strong_attack_takes_the_difference() {
    let mut game = combat_game();
    let mut a = combatant("a", 30, 0, 10, 0, DeathCallback::Monster);
    let mut b = combatant("b", 30, 4, 0, 7, DeathCallback::Monster);
    a.attack(&mut b, &mut game);
    assert_eq!(b.fighter.unwrap().hp, 24);
    assert!(b.alive);
    assert_eq!(game.messages.len(), 1);
    assert_eq!(game.messages.text(0), "a attacks b for 6 hit points.");
}

#[test]
fn equal_power_and_defense_never_heals() {
    let mut game = combat_game();
    let mut a = combatant("a", 30, 0, 4, 0, DeathCallback::Monster);
    let mut b = combatant("b", 30, 4, 0, 7, DeathCallback::Monster);
    a.attack(&mut b, &mut game);
    assert_eq!(b.fighter.unwrap().hp, 30);
    let (hurt, none) = (b.take_damage(0, &mut game), b.take_damage(-5, &mut game));
    assert_eq!((hurt, none), (None, None));
    assert_eq!(b.fighter.unwrap().hp, 30);
}

#[test]
fn killing_blow_hands_experience_to_attacker() {
    let mut game = combat_game();
    let mut a = combatant("player", 30, 0, 10, 5, DeathCallback::Player);
    let mut b = combatant("Orc", 6, 4, 0, 35, DeathCallback::Monster);
    a.attack(&mut b, &mut game);
    assert!(!b.alive);
    assert_eq!(b.fighter, None);
    assert_eq!(b.ai, None);
    assert!(!b.blocks);
    assert_eq!(b.char, '%');
    assert_eq!(b.color, dark_red());
    assert_eq!(b.name, "remains of Orc");
    assert_eq!(a.fighter.unwrap().xp, 40);
    assert_eq!(game.messages.len(), 2);
    assert_eq!(game.messages.text(0), "player attacks Orc for 6 hit points.");
    assert_eq!(game.messages.text(1), "Orc is dead! You gain 35 experience points.");
    assert_eq!(game.messages.color(1), orange());
}

#[test]
fn monster_dies_exactly_once() {
    let mut game = combat_game();
    let mut orc = combatant("Orc", 10, 0, 3, 35, DeathCallback::Monster);
    orc.ai = Some(AI::Basic);
    assert_eq!(orc.take_damage(4, &mut game), None);
    assert_eq!(orc.fighter.unwrap().hp, 6);
    assert_eq!(orc.take_damage(6, &mut game), Some(35));
    assert!(!orc.alive);
    assert_eq!(game.messages.len(), 1);
    assert_eq!(orc.take_damage(50, &mut game), None);
    assert_eq!(orc.take_damage(50, &mut game), None);
    assert!(!orc.alive);
    assert_eq!(orc.name, "remains of Orc");
    assert_eq!(game.messages.len(), 1);
}

#[test]
fn player_dies_exactly_once() {
    let mut game = combat_game();
    let mut player = combatant("player", 10, 0, 3, 12, DeathCallback::Player);
    assert_eq!(player.take_damage(15, &mut game), Some(12));
    assert!(!player.alive);
    assert_eq!(player.fighter.unwrap().hp, -5);
    assert_eq!(player.char, '%');
    assert_eq!(player.name, "player");
    assert_eq!(game.messages.len(), 1);
    assert_eq!(game.messages.text(0), "You died!");
    assert_eq!(game.messages.color(0), red());
    assert_eq!(player.take_damage(3, &mut game), None);
    assert!(!player.alive);
    assert_eq!(player.fighter.unwrap().hp, -8);
    assert_eq!(game.messages.len(), 1);
}

#[test]
fn entity_without_fighter_takes_no_damage() {
    let mut game = combat_game();
    let mut stairs = Object::new(2, 2, '<', "stairs", white(), false);
    assert_eq!(stairs.take_damage(100, &mut game), None);
    assert_eq!(stairs.fighter, None);
    assert_eq!(game.messages.len(), 0);
}

#[test]
fn equipment_counts_for_the_player_only() {
    let mut game = combat_game();
    game.inventory.push(worn(Slot::LeftHand, 2, 0, 0, true));
    game.inventory.push(worn(Slot::RightHand, 3, 1, 10, true));
    game.inventory.push(worn(Slot::Head, 50, 50, 50, false));
    let player = combatant("player", 100, 1, 2, 0, DeathCallback::Player);
    let orc = combatant("Orc", 20, 0, 4, 35, DeathCallback::Monster);
    assert_eq!(player.effective_power(&game), 7);
    assert_eq!(player.effective_defense(&game), 2);
    assert_eq!(player.effective_max_hp(&game), 110);
    assert_eq!(player.effective_stat(Stat::Power, &game), 7);
    assert_eq!(orc.effective_power(&game), 4);
    assert_eq!(orc.effective_defense(&game), 0);
    assert_eq!(orc.effective_max_hp(&game), 20);
    let item = Object::new(0, 0, '!', "potion", white(), false);
    assert_eq!(item.effective_power(&game), 0);
}

#[test]
fn attack_uses_equipment_bonuses() {
    let mut game = combat_game();
    game.inventory.push(worn(Slot::LeftHand, 2, 0, 0, true));
    let mut player = combatant("player", 100, 1, 2, 0, DeathCallback::Player);
    let mut orc = combatant("Orc", 20, 1, 4, 35, DeathCallback::Monster);
    player.attack(&mut orc, &mut game);
    assert_eq!(orc.fighter.unwrap().hp, 17);
    orc.attack(&mut player, &mut game);
    assert_eq!(player.fighter.unwrap().hp, 97);
}

#[test]
fn heal_is_capped_at_maximum() {
    let mut player = combatant("player", 100, 1, 2, 0, DeathCallback::Player);
    player.fighter.as_mut().unwrap().hp = 50;
    player.heal(40);
    assert_eq!(player.fighter.unwrap().hp, 90);
    player.heal(40);
    assert_eq!(player.fighter.unwrap().hp, 100);
    player.heal(-30);
    assert_eq!(player.fighter.unwrap().hp, 70);
    player.fighter.as_mut().unwrap().hp = 130;
    player.heal(1);
    assert_eq!(player.fighter.unwrap().hp, 100);
    let mut chest = Object::new(0, 0, 'c', "chest", white(), false);
    chest.heal(10);
    assert_eq!(chest.fighter, None);
}

#[test]
fn mut_two_hands_out_both_orders() {
    let mut items = vec![10, 20, 30, 40];
    {
        let (a, b) = mut_two(1, 3, &mut items);
        assert_eq!((*a, *b), (20, 40));
        *a += 1;
        *b += 2;
    }
    assert_eq!(items, vec![10, 21, 30, 42]);
    {
        let (a, b) = mut_two(3, 0, &mut items);
        assert_eq!((*a, *b), (42, 10));
        *a = 0;
        *b = 1;
    }
    assert_eq!(items, vec![1, 21, 30, 0]);
}

#[test]
fn distance_is_squared_and_exact() {
    let o = Object::new(2, 3, 'x', "x", white(), false);
    assert_eq!(o.distance_squared(5, 7), 25);
    assert_eq!(o.distance_squared(2, 3), 0);
    let far = Object::new(i32::MIN, i32::MIN, 'x', "x", white(), false);
    assert_eq!(far.distance_squared(i32::MAX, i32::MAX), 2 * (u32::MAX as u128) * (u32::MAX as u128));
    assert!(o.within(5, 7, 5));
    assert!(!o.within(5, 7, 4));
    assert!(!o.within(2, 3, -1));
    assert!(o.within(2, 3, 0));
    let other = Object::new(3, 4, 'y', "y", white(), false);
    assert_eq!(o.distance_squared_to(&other), 2);
}

#[test]
fn new_object_has_no_facets() {
    let o = Object::new(4, 5, '@', "Mi", white(), true);
    assert_eq!(o.pos(), (4, 5));
    assert_eq!((o.char, o.name.as_str(), o.color, o.blocks), ('@', "Mi", white(), true));
    assert_eq!((o.alive, o.always_visible, o.level), (false, false, 1));
    assert!(o.fighter.is_none() && o.ai.is_none() && o.item.is_none() && o.equipment.is_none());
    let mut moved = o;
    moved.set_pos(-3, 9);
    assert_eq!(moved.pos(), (-3, 9));
}

#[test]
fn distance_rounds_down_to_whole_tiles() {
    let o = Object::new(2, 3, 'x', "x", white(), false);
    assert_eq!(o.distance(5, 7), 5);
    assert_eq!(o.distance(2, 3), 0);
    assert_eq!(o.distance(3, 4), 1);
    assert_eq!(o.distance(4, 4), 2);
    assert_eq!(o.distance(2, 103), 100);
    let other = Object::new(5, 5, 'y', "y", white(), false);
    assert_eq!(o.distance_to(&other), 3);
    let far = Object::new(i32::MIN, i32::MIN, 'x', "x", white(), false);
    assert_eq!(far.distance(i32::MAX, i32::MAX), 6074000998);
    assert_eq!(dungeon_core::objects::object::floor_sqrt(0), 0);
    assert_eq!(dungeon_core::objects::object::floor_sqrt(15), 3);
    assert_eq!(dungeon_core::objects::object::floor_sqrt(16), 4);
    assert_eq!(dungeon_core::objects::object::floor_sqrt(1 << 65), 6074000999);
}
