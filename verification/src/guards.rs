//! Run-time tests of the conditions under which the actions of the game
//! can be carried out, for callers that cannot know them otherwise.

use crate::constants::{
    FIREBALL_DAMAGE, FIREBALL_RADIUS, LEVEL_UP_BASE, LEVEL_UP_FACTOR, LEVEL_UP_HP_GAIN,
    LIGHTNING_DAMAGE, LIGHTNING_RANGE, PLAYER,
};
use crate::controls::{key_fits, Key, KeyCode, PlayerAction};
use crate::fov::FovMap;
use crate::objects::ai::AI;
use crate::objects::game::Game;
use crate::objects::item::{
    blast_fits, burn_xp, burns, closest_is, closest_monster, strike_fits, Item, Target,
};
use crate::objects::object::{world, worn_bonus_total, Object, Stat};
use crate::objects::player::{
    fighter_at, find_fighter_at, first_fighter_at, step_fits, use_fits, LevelUpChoice,
};
use crate::ui::{attack_safe, descent_fits, turns_fit, world_answers};
use vstd::prelude::*;

verus! {

/// Whether a number fits in an `i32`.
pub open spec fn fits(n: int) -> bool {
    i32::MIN <= n <= i32::MAX
}

/// Whether a number fits in an `i32`.
pub fn in_range(n: i128) -> (b: bool)
    ensures
        b == fits(n as int),
{
    n >= i32::MIN as i128 && n <= i32::MAX as i128
}

/// The value of a statistic that an entity fights with, however large.
pub fn effective_wide(object: &Object, stat: Stat, game: &Game) -> (value: i128)
    ensures
        value == object@.effective(stat, game@.inventory),
        -0x1_0000_0000_0000_0000_0000_0000 <= value <= 0x1_0000_0000_0000_0000_0000_0000,
{
    let count = game.inventory.len();
    assert(count * 0x8000_0000 <= 0x8000_0000_0000_0000_0000_0000) by (nonlinear_arith)
        requires
            0 <= count <= 0xffff_ffff_ffff_ffff,
    ;
    let base: i32 = match object.fighter {
        Some(fighter) => match stat {
            Stat::Power => fighter.base_power,
            Stat::Defense => fighter.base_defense,
            Stat::MaxHp => fighter.max_hp,
        },
        None => 0,
    };
    let bonus: i128 = if object.carries_inventory() {
        worn_bonus_total(&game.inventory, stat)
    } else {
        0
    };
    base as i128 + bonus
}

/// Whether `attacker` can attack `target`: every number that the attack
/// computes fits in an `i32`, and the attacker can take the experience of
/// a target that dies.
pub fn attack_is_safe(attacker: &Object, target: &Object, game: &Game) -> (safe: bool)
    ensures
        safe == attacker@.attack_fits(target@, game@.inventory),
{
    let power = effective_wide(attacker, Stat::Power, game);
    let defense = effective_wide(target, Stat::Defense, game);
    if !in_range(power) || !in_range(defense) {
        return false;
    }
    let damage = power - defense;
    if !in_range(damage) {
        return false;
    }
    match target.fighter {
        None => true,
        Some(fighter) => {
            if damage <= 0 {
                return true;
            }
            let left = fighter.hp as i128 - damage;
            if left < i32::MIN as i128 {
                return false;
            }
            if target.alive && left <= 0 {
                match attacker.fighter {
                    Some(own) => in_range(own.xp as i128 + fighter.xp as i128),
                    None => false,
                }
            } else {
                true
            }
        },
    }
}

/// Whether the player can step by `(dx, dy)`.
pub fn step_is_safe(dx: i32, dy: i32, game: &Game, objects: &Vec<Object>) -> (safe: bool)
    ensures
        safe == step_fits(world(objects@), game@.inventory, dx as int, dy as int),
{
    if objects.len() == 0 {
        return false;
    }
    if dx == 0 && dy == 0 && objects[PLAYER].fighter.is_some() {
        return false;
    }
    let ghost all = world(objects@);
    let x: i64 = objects[PLAYER].x as i64 + dx as i64;
    let y: i64 = objects[PLAYER].y as i64 + dy as i64;
    match find_fighter_at(objects, x, y) {
        Some(target) => {
            let safe = attack_is_safe(&objects[PLAYER], &objects[target], game);
            proof {
                assert(first_fighter_at(all, target as int, x as int, y as int));
                assert forall|t: int| first_fighter_at(all, t, x as int, y as int) implies t
                    == target by {
                    if t < target {
                        assert(!fighter_at(all, t, x as int, y as int));
                    } else if target < t {
                        assert(fighter_at(all, target as int, x as int, y as int));
                    }
                }
            }
            safe
        },
        None => {
            proof {
                assert forall|t: int| !first_fighter_at(all, t, x as int, y as int) by {
                    if first_fighter_at(all, t, x as int, y as int) {
                        assert(!fighter_at(all, t, x as int, y as int));
                    }
                }
            }
            true
        },
    }
}

/// Whether the key press can be handled.
pub fn key_is_safe(key: Key, game: &Game, objects: &Vec<Object>) -> (safe: bool)
    ensures
        safe == key_fits(key, world(objects@), game@.inventory),
{
    if objects.len() == 0 {
        return false;
    }
    if key.toggles_fullscreen() || !objects[PLAYER].alive {
        return true;
    }
    match key.code {
        KeyCode::Up => step_is_safe(0, -1, game, objects),
        KeyCode::Down => step_is_safe(0, 1, game, objects),
        KeyCode::Left => step_is_safe(-1, 0, game, objects),
        KeyCode::Right => step_is_safe(1, 0, game, objects),
        _ => true,
    }
}

/// Whether the attack of `monster` on `player` is safe whatever hit points
/// the player has left.
pub fn attack_is_safe_at_any_health(monster: &Object, player: &Object, game: &Game) -> (safe: bool)
    ensures
        safe == attack_safe(monster@, player@, game@.inventory),
{
    let power = effective_wide(monster, Stat::Power, game);
    let defense = effective_wide(player, Stat::Defense, game);
    if !in_range(power) || !in_range(defense) {
        return false;
    }
    let damage = power - defense;
    if !in_range(damage) {
        return false;
    }
    if damage <= 0 {
        return true;
    }
    let experience: i128 = match player.fighter {
        Some(fighter) => fighter.xp as i128,
        None => 0,
    };
    match monster.fighter {
        Some(own) => in_range(own.xp as i128 + experience),
        None => false,
    }
}

/// Whether an entity acts by the basic behaviour.
pub fn acts_by_basic(object: &Object) -> (b: bool)
    ensures
        b == (object@.ai == Some(AI::Basic)),
{
    match &object.ai {
        Some(AI::Basic) => true,
        _ => false,
    }
}

/// Whether the monsters' turns can be carried out.
pub fn turns_are_safe(game: &Game, objects: &Vec<Object>) -> (safe: bool)
    ensures
        safe == turns_fit(world(objects@), game@.inventory),
{
    if objects.len() == 0 {
        return false;
    }
    if acts_by_basic(&objects[PLAYER]) {
        return false;
    }
    let ghost all = world(objects@);
    let mut id: usize = 1;
    while id < objects.len()
        invariant
            1 <= id <= objects@.len(),
            all == world(objects@),
            forall|k: int|
                0 < k < id && (#[trigger] all[k]).ai == Some(AI::Basic) ==> attack_safe(
                    all[k],
                    all[0],
                    game@.inventory,
                ),
        decreases objects@.len() - id,
    {
        if acts_by_basic(&objects[id]) {
            if !attack_is_safe_at_any_health(&objects[id], &objects[PLAYER], game) {
                assert(all[id as int].ai == Some(AI::Basic));
                return false;
            }
        }
        id += 1;
    }
    true
}

/// Whether the world can answer the player's action.
pub fn reaction_is_safe(action: PlayerAction, game: &Game, objects: &Vec<Object>) -> (safe: bool)
    ensures
        safe == (objects@.len() > 0 && (world_answers(action, world(objects@)) ==> turns_fit(
            world(objects@),
            game@.inventory,
        ))),
{
    if objects.len() == 0 {
        return false;
    }
    if objects[PLAYER].alive && action == PlayerAction::TookTurn {
        turns_are_safe(game, objects)
    } else {
        true
    }
}

/// Whether the player can rise a level by `choice`.
pub fn level_up_is_safe(choice: LevelUpChoice, objects: &Vec<Object>) -> (safe: bool)
    requires
        objects@.len() > 0,
    ensures
        safe == world(objects@)[0].level_up_fits(choice),
{
    let player = &objects[PLAYER];
    let threshold: i128 = LEVEL_UP_BASE as i128 + player.level as i128 * LEVEL_UP_FACTOR as i128;
    let experience: i128 = match player.fighter {
        Some(fighter) => fighter.xp as i128,
        None => 0,
    };
    if experience < threshold {
        return true;
    }
    let fighter = match player.fighter {
        Some(fighter) => fighter,
        None => {
            return false;
        },
    };
    if player.level == i32::MAX || experience - threshold > i32::MAX as i128 {
        return false;
    }
    match choice {
        LevelUpChoice::MaxHp => fighter.max_hp as i64 + LEVEL_UP_HP_GAIN as i64 <= i32::MAX as i64,
        LevelUpChoice::Power => fighter.base_power < i32::MAX,
        LevelUpChoice::Defense => fighter.base_defense < i32::MAX,
    }
}

/// Whether the player can descend to the next level.
pub fn descent_is_safe(game: &Game, objects: &Vec<Object>) -> (safe: bool)
    ensures
        safe == descent_fits(world(objects@), game@),
{
    if objects.len() == 0 || game.dungeon_level == u32::MAX {
        return false;
    }
    match objects[PLAYER].fighter {
        None => true,
        Some(fighter) => fighter.hp as i64 + (fighter.max_hp / 2) as i64 >= i32::MIN as i64,
    }
}

/// Whether entity `id` can be struck for `damage` by the player's magic.
pub fn strike_is_safe(objects: &Vec<Object>, id: usize, damage: i32) -> (safe: bool)
    requires
        id < objects@.len(),
        objects@.len() > 0,
    ensures
        safe == strike_fits(world(objects@), id as int, damage as int),
{
    match objects[id].fighter {
        None => true,
        Some(fighter) => {
            let left: i64 = if damage > 0 {
                fighter.hp as i64 - damage as i64
            } else {
                fighter.hp as i64
            };
            if left < i32::MIN as i64 {
                return false;
            }
            if objects[id].alive && left <= 0 {
                match objects[PLAYER].fighter {
                    Some(own) => in_range(own.xp as i128 + fighter.xp as i128),
                    None => false,
                }
            } else {
                true
            }
        },
    }
}

/// Whether a fireball can burst on `(x, y)`.
pub fn blast_is_safe(objects: &Vec<Object>, x: i32, y: i32) -> (safe: bool)
    requires
        objects@.len() > 0,
    ensures
        safe == blast_fits(world(objects@), x as int, y as int),
{
    let ghost all = world(objects@);
    let mut total: i128 = 0;
    let mut id: usize = 0;
    while id < objects.len()
        invariant
            id <= objects@.len(),
            all == world(objects@),
            total == burn_xp(all, x as int, y as int, id as nat),
            -(id as int) * 0x8000_0000 <= total <= (id as int) * 0x8000_0000,
            forall|i: int|
                0 <= i < id && burns(#[trigger] all[i], x as int, y as int)
                    ==> all[i].fighter->0.hp - FIREBALL_DAMAGE >= i32::MIN,
        decreases objects@.len() - id,
    {
        if let Some(fighter) = objects[id].fighter {
            if objects[id].within(x, y, FIREBALL_RADIUS) {
                let left = fighter.hp as i64 - FIREBALL_DAMAGE as i64;
                if left < i32::MIN as i64 {
                    assert(burns(all[id as int], x as int, y as int));
                    return false;
                }
                if id != PLAYER && objects[id].alive && left <= 0 {
                    total = total + fighter.xp as i128;
                }
            }
        }
        id += 1;
    }
    let player = &objects[PLAYER];
    let still_fights: Option<i32> = match player.fighter {
        None => None,
        Some(fighter) => {
            let gone = player.within(x, y, FIREBALL_RADIUS) && player.alive && fighter.hp as i64
                - FIREBALL_DAMAGE as i64 <= 0 && !player.carries_inventory();
            if gone {
                None
            } else {
                Some(fighter.xp)
            }
        },
    };
    match still_fights {
        None => false,
        Some(xp) => in_range(xp as i128 + total),
    }
}

/// Whether the inventory's entity at `inventory_id` can be used on what was
/// picked for it.
pub fn use_is_safe(
    inventory_id: usize,
    target: Target,
    fov: &FovMap,
    game: &Game,
    objects: &Vec<Object>,
) -> (safe: bool)
    requires
        inventory_id < game@.inventory.len(),
    ensures
        safe == use_fits(inventory_id as int, target, world(objects@), fov@, game@.inventory),
{
    match game.inventory[inventory_id].item {
        None => true,
        Some(Item::Heal) => objects.len() > 0,
        Some(Item::Lightning) => {
            if objects.len() == 0 {
                return false;
            }
            match closest_monster(fov, objects, LIGHTNING_RANGE) {
                Some(id) => {
                    proof {
                        assert(closest_is(
                            world(objects@),
                            fov@,
                            LIGHTNING_RANGE as int,
                            id as int,
                        ));
                    }
                    strike_is_safe(objects, id, LIGHTNING_DAMAGE)
                },
                None => true,
            }
        },
        Some(Item::Confuse) => match target {
            Target::Monster(id) => id < objects.len(),
            _ => true,
        },
        Some(Item::Fireball) => match target {
            Target::Tile(x, y) => {
                if objects.len() == 0 {
                    return false;
                }
                blast_is_safe(objects, x, y)
            },
            _ => true,
        },
        Some(Item::Sword) => true,
        Some(Item::Shield) => true,
    }
}

} // verus!
