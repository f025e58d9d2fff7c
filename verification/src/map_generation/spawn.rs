//! What lives and lies in the dungeon at which depth.

use crate::colors::{
    darker_green, darker_orange, desaturated_green, light_purple, light_red, light_yellow, sky,
    violet,
};
use crate::objects::ai::AI;
use crate::objects::equipment::{Equipment, Slot};
use crate::objects::fighter::{DeathCallback, Fighter};
use crate::objects::item::Item;
use crate::objects::object::{Object, ObjectView};
use crate::random::total_weight;
use vstd::prelude::*;

verus! {

/// One step of a depth-scaled table: from dungeon level `level` on, the
/// table's value is `value`.
#[derive(Clone, Copy, Debug, PartialEq, Eq, Structural)]
pub struct Transition {
    pub level: u32,
    pub value: u32,
}

/// The value of a depth-scaled table at a dungeon level: that of the last
/// step whose level has been reached, and 0 before the first.
pub open spec fn table_value(table: Seq<Transition>, level: u32) -> u32
    decreases table.len(),
{
    if table.len() == 0 {
        0
    } else if level >= table.last().level {
        table.last().value
    } else {
        table_value(table.drop_last(), level)
    }
}

/// Whether the steps of a table come in ascending order of level.
pub open spec fn ascending(table: Seq<Transition>) -> bool {
    forall|i: int, j: int| 0 <= i <= j < table.len() ==> table[i].level <= table[j].level
}

/// In a table whose steps ascend, the value at a level is 0 if no step has
/// been reached, and otherwise the value of the step with the highest level
/// among those reached.
pub proof fn lemma_table_value_is_highest_reached(table: Seq<Transition>, level: u32)
    requires
        ascending(table),
    ensures
        (forall|i: int| 0 <= i < table.len() ==> table[i].level > level) ==> table_value(
            table,
            level,
        ) == 0,
        (exists|i: int| 0 <= i < table.len() && table[i].level <= level) ==> exists|j: int|
            {
                &&& 0 <= j < table.len()
                &&& #[trigger] table[j].level <= level
                &&& table_value(table, level) == table[j].value
                &&& forall|k: int|
                    0 <= k < table.len() && table[k].level <= level ==> table[k].level
                        <= table[j].level
            },
    decreases table.len(),
{
    if table.len() > 0 {
        let last = table.len() - 1;
        if level >= table.last().level {
            assert(table[last].level <= level);
        } else {
            let rest = table.drop_last();
            assert(ascending(rest)) by {
                assert forall|i: int, j: int| 0 <= i <= j < rest.len() implies rest[i].level
                    <= rest[j].level by {
                    assert(table[i].level <= table[j].level);
                }
            }
            lemma_table_value_is_highest_reached(rest, level);
            if exists|i: int| 0 <= i < table.len() && table[i].level <= level {
                let i = choose|i: int| 0 <= i < table.len() && table[i].level <= level;
                assert(rest[i].level <= level);
                let j = choose|j: int|
                    {
                        &&& 0 <= j < rest.len()
                        &&& #[trigger] rest[j].level <= level
                        &&& table_value(rest, level) == rest[j].value
                        &&& forall|k: int|
                            0 <= k < rest.len() && rest[k].level <= level ==> rest[k].level
                                <= rest[j].level
                    };
                assert(table[j].level <= level);
                assert forall|k: int|
                    0 <= k < table.len() && table[k].level <= level implies table[k].level
                    <= table[j].level by {
                    assert(rest[k].level <= level);
                }
            } else {
                assert forall|i: int| 0 <= i < rest.len() implies rest[i].level > level by {
                    assert(table[i].level > level);
                }
            }
        }
    }
}

/// Looks up a depth-scaled table at a dungeon level.
pub fn from_dungeon_level(table: &[Transition], level: u32) -> (v: u32)
    ensures
        v == table_value(table@, level),
{
    let mut i: usize = table.len();
    assert(table@.take(i as int) =~= table@);
    while i > 0
        invariant
            i <= table@.len(),
            table_value(table@, level) == table_value(table@.take(i as int), level),
        decreases i,
    {
        i -= 1;
        assert(table@.take(i + 1).last() == table@[i as int]);
        assert(table@.take(i + 1).drop_last() =~= table@.take(i as int));
        if level >= table[i].level {
            return table[i].value;
        }
    }
    assert(table@.take(0).len() == 0);
    0
}

/// The kinds of monster that live in the dungeon.
#[derive(Clone, Copy, Debug, PartialEq, Eq, Structural)]
pub enum MonsterKind {
    Orc,
    Troll,
}

/// The most monsters a room can hold at a dungeon level.
pub open spec fn max_monsters(level: u32) -> u32 {
    if level >= 6 {
        5
    } else if level >= 4 {
        3
    } else if level >= 1 {
        2
    } else {
        0
    }
}

/// The most items a room can hold at a dungeon level.
pub open spec fn max_items(level: u32) -> u32 {
    if level >= 4 {
        2
    } else if level >= 1 {
        1
    } else {
        0
    }
}

/// The weight with which a kind of monster is chosen at a dungeon level.
pub open spec fn monster_weight(kind: MonsterKind, level: u32) -> u32 {
    match kind {
        MonsterKind::Orc => 80,
        MonsterKind::Troll => if level >= 7 {
            60
        } else if level >= 5 {
            30
        } else if level >= 3 {
            15
        } else {
            0
        },
    }
}

/// The weight with which a kind of item is chosen at a dungeon level.
pub open spec fn item_weight(kind: Item, level: u32) -> u32 {
    match kind {
        Item::Heal => 35,
        Item::Lightning => if level >= 4 {
            25
        } else {
            0
        },
        Item::Fireball => if level >= 6 {
            25
        } else {
            0
        },
        Item::Confuse => if level >= 2 {
            10
        } else {
            0
        },
        Item::Sword => if level >= 4 {
            5
        } else {
            0
        },
        Item::Shield => if level >= 8 {
            15
        } else {
            0
        },
    }
}

/// The kinds of monster in the order of their weights in
/// [`monster_chances`].
pub open spec fn monster_kinds() -> Seq<MonsterKind> {
    seq![MonsterKind::Orc, MonsterKind::Troll]
}

/// The kinds of item in the order of their weights in [`item_chances`].
pub open spec fn item_kinds() -> Seq<Item> {
    seq![Item::Heal, Item::Lightning, Item::Fireball, Item::Confuse, Item::Sword, Item::Shield]
}

/// A table of one step.
fn table_1(l0: u32, v0: u32) -> (t: Vec<Transition>)
    ensures
        t@ == seq![Transition { level: l0, value: v0 }],
{
    let mut t: Vec<Transition> = Vec::new();
    t.push(Transition { level: l0, value: v0 });
    assert(t@ =~= seq![Transition { level: l0, value: v0 }]);
    t
}

/// A table of three steps.
fn table_3(l0: u32, v0: u32, l1: u32, v1: u32, l2: u32, v2: u32) -> (t: Vec<Transition>)
    ensures
        t@ == seq![
            Transition { level: l0, value: v0 },
            Transition { level: l1, value: v1 },
            Transition { level: l2, value: v2 },
        ],
{
    let mut t: Vec<Transition> = Vec::new();
    t.push(Transition { level: l0, value: v0 });
    t.push(Transition { level: l1, value: v1 });
    t.push(Transition { level: l2, value: v2 });
    assert(t@ =~= seq![
        Transition { level: l0, value: v0 },
        Transition { level: l1, value: v1 },
        Transition { level: l2, value: v2 },
    ]);
    t
}

/// The value at `level` of a table with a single step.
fn step_value(from: u32, value: u32, level: u32) -> (v: u32)
    ensures
        v == if level >= from {
            value
        } else {
            0
        },
{
    let t = table_1(from, value);
    proof {
        reveal_with_fuel(table_value, 2);
        assert(t@.drop_last().len() == 0);
    }
    from_dungeon_level(t.as_slice(), level)
}

/// The value at `level` of a table with three ascending steps.
fn three_step_value(l0: u32, v0: u32, l1: u32, v1: u32, l2: u32, v2: u32, level: u32) -> (v: u32)
    ensures
        v == if level >= l2 {
            v2
        } else if level >= l1 {
            v1
        } else if level >= l0 {
            v0
        } else {
            0
        },
{
    let t = table_3(l0, v0, l1, v1, l2, v2);
    proof {
        reveal_with_fuel(table_value, 4);
        let s2 = t@.drop_last();
        let s1 = s2.drop_last();
        assert(s2.last() == Transition { level: l1, value: v1 });
        assert(s1.last() == Transition { level: l0, value: v0 });
        assert(s1.drop_last().len() == 0);
    }
    from_dungeon_level(t.as_slice(), level)
}

/// The most monsters a room can hold at a dungeon level.
pub fn monster_limit(level: u32) -> (n: u32)
    ensures
        n == max_monsters(level),
{
    three_step_value(1, 2, 4, 3, 6, 5, level)
}

/// The most items a room can hold at a dungeon level.
pub fn item_limit(level: u32) -> (n: u32)
    ensures
        n == max_items(level),
{
    let t = {
        let mut t: Vec<Transition> = Vec::new();
        t.push(Transition { level: 1, value: 1 });
        t.push(Transition { level: 4, value: 2 });
        t
    };
    proof {
        reveal_with_fuel(table_value, 3);
        let s1 = t@.drop_last();
        assert(t@.last() == Transition { level: 4, value: 2 });
        assert(s1.last() == Transition { level: 1, value: 1 });
        assert(s1.drop_last().len() == 0);
    }
    from_dungeon_level(t.as_slice(), level)
}

/// Adding a weight to a list adds it to the list's total.
pub proof fn lemma_total_weight_push(weights: Seq<u32>, w: u32)
    ensures
        total_weight(weights.push(w)) == total_weight(weights) + w,
{
    assert(weights.push(w).drop_last() =~= weights);
}

/// The weights of the kinds of monster at a dungeon level, in the order of
/// [`monster_kinds`].
pub fn monster_chances(level: u32) -> (weights: Vec<u32>)
    ensures
        weights@.len() == monster_kinds().len(),
        forall|i: int|
            0 <= i < weights@.len() ==> #[trigger] weights@[i] == monster_weight(
                monster_kinds()[i],
                level,
            ),
        80 <= total_weight(weights@) <= 140,
{
    let troll_chance = three_step_value(3, 15, 5, 30, 7, 60, level);
    let mut weights: Vec<u32> = Vec::new();
    weights.push(80);
    weights.push(troll_chance);
    proof {
        let empty = Seq::<u32>::empty();
        lemma_total_weight_push(empty, 80);
        lemma_total_weight_push(empty.push(80), troll_chance);
        assert(weights@ =~= empty.push(80).push(troll_chance));
    }
    weights
}

/// The weights of the kinds of item at a dungeon level, in the order of
/// [`item_kinds`].
pub fn item_chances(level: u32) -> (weights: Vec<u32>)
    ensures
        weights@.len() == item_kinds().len(),
        forall|i: int|
            0 <= i < weights@.len() ==> #[trigger] weights@[i] == item_weight(
                item_kinds()[i],
                level,
            ),
        35 <= total_weight(weights@) <= 115,
{
    let lightning = step_value(4, 25, level);
    let fireball = step_value(6, 25, level);
    let confuse = step_value(2, 10, level);
    let sword = step_value(4, 5, level);
    let shield = step_value(8, 15, level);
    let mut weights: Vec<u32> = Vec::new();
    weights.push(35);
    weights.push(lightning);
    weights.push(fireball);
    weights.push(confuse);
    weights.push(sword);
    weights.push(shield);
    proof {
        let s0 = Seq::<u32>::empty();
        let s1 = s0.push(35);
        let s2 = s1.push(lightning);
        let s3 = s2.push(fireball);
        let s4 = s3.push(confuse);
        let s5 = s4.push(sword);
        lemma_total_weight_push(s0, 35);
        lemma_total_weight_push(s1, lightning);
        lemma_total_weight_push(s2, fireball);
        lemma_total_weight_push(s3, confuse);
        lemma_total_weight_push(s4, sword);
        lemma_total_weight_push(s5, shield);
        assert(weights@ =~= s5.push(shield));
    }
    weights
}

/// The kind of monster at a position of [`monster_kinds`].
pub fn monster_kind_at(index: usize) -> (kind: MonsterKind)
    requires
        index < monster_kinds().len(),
    ensures
        kind == monster_kinds()[index as int],
{
    if index == 0 {
        MonsterKind::Orc
    } else {
        MonsterKind::Troll
    }
}

/// The kind of item at a position of [`item_kinds`].
pub fn item_kind_at(index: usize) -> (kind: Item)
    requires
        index < item_kinds().len(),
    ensures
        kind == item_kinds()[index as int],
{
    if index == 0 {
        Item::Heal
    } else if index == 1 {
        Item::Lightning
    } else if index == 2 {
        Item::Fireball
    } else if index == 3 {
        Item::Confuse
    } else if index == 4 {
        Item::Sword
    } else {
        Item::Shield
    }
}

/// A monster of the given kind, alive, standing at `(x, y)`.
pub open spec fn monster_view(kind: MonsterKind, x: i32, y: i32) -> ObjectView {
    match kind {
        MonsterKind::Orc => ObjectView {
            alive: true,
            fighter: Some(
                Fighter {
                    max_hp: 20,
                    hp: 20,
                    base_defense: 0,
                    base_power: 4,
                    xp: 35,
                    on_death: DeathCallback::Monster,
                },
            ),
            ai: Some(AI::Basic),
            ..ObjectView::fresh(x, y, 'o', "Orc"@, desaturated_green(), true)
        },
        MonsterKind::Troll => ObjectView {
            alive: true,
            fighter: Some(
                Fighter {
                    max_hp: 30,
                    hp: 30,
                    base_defense: 2,
                    base_power: 8,
                    xp: 100,
                    on_death: DeathCallback::Monster,
                },
            ),
            ai: Some(AI::Basic),
            ..ObjectView::fresh(x, y, 'T', "troll"@, darker_green(), true)
        },
    }
}

/// An item of the given kind lying at `(x, y)`. It stays on display once
/// its tile has been seen.
pub open spec fn item_view(kind: Item, x: i32, y: i32) -> ObjectView {
    match kind {
        Item::Heal => ObjectView {
            item: Some(Item::Heal),
            always_visible: true,
            ..ObjectView::fresh(x, y, '!', "healing potion"@, violet(), false)
        },
        Item::Lightning => ObjectView {
            item: Some(Item::Lightning),
            always_visible: true,
            ..ObjectView::fresh(x, y, '#', "lightning scroll"@, light_yellow(), false)
        },
        Item::Fireball => ObjectView {
            item: Some(Item::Fireball),
            always_visible: true,
            ..ObjectView::fresh(x, y, '#', "scroll of fireball"@, light_red(), false)
        },
        Item::Confuse => ObjectView {
            item: Some(Item::Confuse),
            always_visible: true,
            ..ObjectView::fresh(x, y, '#', "confusion scroll"@, light_purple(), false)
        },
        Item::Sword => ObjectView {
            item: Some(Item::Sword),
            always_visible: true,
            equipment: Some(
                Equipment {
                    equipped: false,
                    slot: Slot::RightHand,
                    power_bonus: 3,
                    defense_bonus: 0,
                    hp_bonus: 0,
                },
            ),
            ..ObjectView::fresh(x, y, '/', "sword"@, sky(), false)
        },
        Item::Shield => ObjectView {
            item: Some(Item::Shield),
            always_visible: true,
            equipment: Some(
                Equipment {
                    equipped: false,
                    slot: Slot::RightHand,
                    power_bonus: 0,
                    defense_bonus: 1,
                    hp_bonus: 0,
                },
            ),
            ..ObjectView::fresh(x, y, '[', "sword"@, darker_orange(), false)
        },
    }
}

/// Creates a monster of the given kind at `(x, y)`.
pub fn make_monster(kind: MonsterKind, x: i32, y: i32) -> (monster: Object)
    ensures
        monster@ == monster_view(kind, x, y),
{
    let mut monster = match kind {
        MonsterKind::Orc => {
            let mut orc = Object::new(x, y, 'o', "Orc", desaturated_green(), true);
            orc.fighter = Some(
                Fighter {
                    max_hp: 20,
                    hp: 20,
                    base_defense: 0,
                    base_power: 4,
                    xp: 35,
                    on_death: DeathCallback::Monster,
                },
            );
            orc.ai = Some(AI::Basic);
            orc
        },
        MonsterKind::Troll => {
            let mut troll = Object::new(x, y, 'T', "troll", darker_green(), true);
            troll.fighter = Some(
                Fighter {
                    max_hp: 30,
                    hp: 30,
                    base_defense: 2,
                    base_power: 8,
                    xp: 100,
                    on_death: DeathCallback::Monster,
                },
            );
            troll.ai = Some(AI::Basic);
            troll
        },
    };
    monster.alive = true;
    monster
}

/// Creates an item of the given kind at `(x, y)`.
pub fn make_item(kind: Item, x: i32, y: i32) -> (item: Object)
    ensures
        item@ == item_view(kind, x, y),
{
    let mut item = match kind {
        Item::Heal => {
            let mut object = Object::new(x, y, '!', "healing potion", violet(), false);
            object.item = Some(Item::Heal);
            object
        },
        Item::Lightning => {
            let mut object = Object::new(x, y, '#', "lightning scroll", light_yellow(), false);
            object.item = Some(Item::Lightning);
            object
        },
        Item::Fireball => {
            let mut object = Object::new(x, y, '#', "scroll of fireball", light_red(), false);
            object.item = Some(Item::Fireball);
            object
        },
        Item::Confuse => {
            let mut object = Object::new(x, y, '#', "confusion scroll", light_purple(), false);
            object.item = Some(Item::Confuse);
            object
        },
        Item::Sword => {
            let mut object = Object::new(x, y, '/', "sword", sky(), false);
            object.item = Some(Item::Sword);
            object.equipment = Some(
                Equipment {
                    equipped: false,
                    slot: Slot::RightHand,
                    power_bonus: 3,
                    defense_bonus: 0,
                    hp_bonus: 0,
                },
            );
            object
        },
        Item::Shield => {
            let mut object = Object::new(x, y, '[', "sword", darker_orange(), false);
            object.item = Some(Item::Shield);
            object.equipment = Some(
                Equipment {
                    equipped: false,
                    slot: Slot::RightHand,
                    power_bonus: 0,
                    defense_bonus: 1,
                    hp_bonus: 0,
                },
            );
            object
        },
    };
    item.always_visible = true;
    item
}

} // verus!
