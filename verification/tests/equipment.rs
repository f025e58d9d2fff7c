use dungeon_core::colors::{light_green, light_yellow, red, white};
use dungeon_core::messages::Messages;
use dungeon_core::objects::equipment::{get_equipped_in_slot, toggle_equipment, Equipment, Slot};
use dungeon_core::objects::game::Game;
use dungeon_core::objects::item::{Item, UseResult};
use dungeon_core::objects::object::Object;
use dungeon_core::tiles::solid_map;

fn gear(name: &str, slot: Slot, equipped: bool) -> Object {
    let mut o = Object::new(0, 0, '/', name, white(), false);
    o.item = Some(Item::Sword);
    o.equipment = Some(Equipment { slot, equipped, power_bonus: 1, defense_bonus: 0, hp_bonus: 0 });
    o
}

fn bag(items: Vec<Object>) -> Game {
    Game { map: solid_map(3, 3), messages: Messages::new(), inventory: items, dungeon_level: 1 }
}

fn is_worn(game: &Game, i: usize) -> bool {
    game.inventory[i].equipment.unwrap().equipped
}

#[test]
fn equipping_displaces_what_is_worn_in_the_slot() {
    let mut game = bag(vec![gear("dagger", Slot::RightHand, true), gear("sword", Slot::RightHand, false)]);
    assert_eq!(toggle_equipment(1, &mut game), UseResult::UsedAndKept);
    assert!(!is_worn(&game, 0));
    assert!(is_worn(&game, 1));
    assert_eq!(game.messages.len(), 2);
    assert_eq!(game.messages.text(0), "Dequipped dagger from right hand.");
    assert_eq!(game.messages.color(0), light_yellow());
    assert_eq!(game.messages.text(1), "Equipped sword on right hand.");
    assert_eq!(game.messages.color(1), light_green());
}

#[test]
fn toggling_worn_equipment_takes_it_off() {
    let mut game = bag(vec![gear("helmet", Slot::Head, true), gear("sword", Slot::RightHand, true)]);
    assert_eq!(toggle_equipment(0, &mut game), UseResult::UsedAndKept);
    assert!(!is_worn(&game, 0));
    assert!(is_worn(&game, 1));
    assert_eq!(game.messages.len(), 1);
    assert_eq!(game.messages.text(0), "Dequipped helmet from head.");
    assert_eq!(toggle_equipment(0, &mut game), UseResult::UsedAndKept);
    assert!(is_worn(&game, 0));
    assert_eq!(game.messages.text(1), "Equipped helmet on head.");
}

#[test]
fn other_slots_are_left_alone() {
    let mut game = bag(vec![
        gear("shield", Slot::LeftHand, true),
        gear("helmet", Slot::Head, true),
        gear("sword", Slot::RightHand, false),
    ]);
    toggle_equipment(2, &mut game);
    assert!(is_worn(&game, 0) && is_worn(&game, 1) && is_worn(&game, 2));
    for slot in [Slot::LeftHand, Slot::RightHand, Slot::Head] {
        let worn = game
            .inventory
            .iter()
            .filter(|o| o.equipment.map_or(false, |e| e.equipped && e.slot == slot))
            .count();
        assert!(worn <= 1);
    }
}

#[test]
fn toggling_what_is_no_equipment_cancels() {
    let mut potion = Object::new(0, 0, '!', "healing potion", white(), false);
    potion.item = Some(Item::Heal);
    let mut game = bag(vec![potion, gear("sword", Slot::RightHand, true)]);
    assert_eq!(toggle_equipment(0, &mut game), UseResult::Cancelled);
    assert!(is_worn(&game, 1));
    assert_eq!(game.messages.len(), 0);
}

#[test]
fn finds_first_equipped_in_slot() {
    let items = vec![
        gear("a", Slot::Head, false),
        gear("b", Slot::LeftHand, true),
        gear("c", Slot::Head, true),
        gear("d", Slot::Head, true),
    ];
    assert_eq!(get_equipped_in_slot(Slot::Head, &items), Some(2));
    assert_eq!(get_equipped_in_slot(Slot::LeftHand, &items), Some(1));
    assert_eq!(get_equipped_in_slot(Slot::RightHand, &items), None);
    assert_eq!(get_equipped_in_slot(Slot::Head, &vec![]), None);
}

#[test]
fn equip_and_dequip_complain_about_what_cannot_be_worn() {
    let mut log = Messages::new();
    let mut rock = Object::new(0, 0, '*', "rock", white(), false);
    rock.equip(&mut log);
    rock.dequip(&mut log);
    assert_eq!(log.text(0), "Can't equip rock because it's not an Item.");
    assert_eq!(log.text(1), "Can't dequip rock because it's not an Item.");
    assert_eq!(log.color(0), red());
    let mut potion = Object::new(0, 0, '!', "potion", white(), false);
    potion.item = Some(Item::Heal);
    potion.equip(&mut log);
    potion.dequip(&mut log);
    assert_eq!(log.text(2), "Can't equip potion because it's not an Equipment.");
    assert_eq!(log.text(3), "Can't dequip potion because it's not an Equipment.");
    assert_eq!(potion.equipment, None);
    assert_eq!(log.len(), 4);
}

#[test]
fn equip_twice_reports_once() {
    let mut log = Messages::new();
    let mut sword = gear("sword", Slot::RightHand, false);
    sword.equip(&mut log);
    sword.equip(&mut log);
    assert!(sword.equipment.unwrap().equipped);
    assert_eq!(log.len(), 1);
    sword.dequip(&mut log);
    sword.dequip(&mut log);
    assert!(!sword.equipment.unwrap().equipped);
    assert_eq!(log.len(), 2);
}

#[test]
fn slot_names() {
    assert_eq!(Slot::LeftHand.name(), "left hand");
    assert_eq!(Slot::RightHand.name(), "right hand");
    assert_eq!(Slot::Head.name(), "head");
}
