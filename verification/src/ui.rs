//! The course of a run: its start, the descent to the next level, and the
//! world's answer to the player's action.

use crate::colors::{red, sky, violet, white, Color};
use crate::constants::PLAYER;
use crate::controls::PlayerAction;
use crate::fov::{FovCell, FovMap};
use crate::geometry::{half, Rect};
use crate::map_generation::make_map::{level_generated, make_map};
use crate::messages::Messages;
use crate::objects::ai::{ai_take_turn, basic_attacks, turn_taken, AI};
use crate::objects::equipment::{Equipment, Slot};
use crate::objects::fighter::{DeathCallback, Fighter};
use crate::objects::game::{Game, GameView};
use crate::objects::item::Item;
use crate::objects::object::{world, Object, ObjectView, Stat};
use crate::tiles::grid;
use vstd::prelude::*;

verus! {

/// The player at the start of a run.
pub open spec fn new_player() -> ObjectView {
    ObjectView {
        alive: true,
        fighter: Some(
            Fighter {
                max_hp: 100,
                hp: 100,
                base_defense: 1,
                base_power: 2,
                xp: 0,
                on_death: DeathCallback::Player,
            },
        ),
        ..ObjectView::fresh(0, 0, '@', "player"@, white(), true)
    }
}

/// The dagger that the player starts with, worn in the left hand.
pub open spec fn starting_dagger() -> ObjectView {
    ObjectView {
        item: Some(Item::Sword),
        equipment: Some(
            Equipment {
                equipped: true,
                slot: Slot::LeftHand,
                hp_bonus: 0,
                defense_bonus: 0,
                power_bonus: 2,
            },
        ),
        ..ObjectView::fresh(0, 0, '-', "dagger"@, sky(), false)
    }
}

/// Starts a run: a player on the first level of a fresh dungeon, with a
/// dagger in hand and a greeting in the log.
pub fn new_game() -> (start: (Game, Vec<Object>))
    ensures
        start.0@.dungeon_level == 1,
        start.0@.inventory == seq![starting_dagger()],
        start.0@.messages == seq![("Yo, welcome!"@, red())],
        exists|rooms: Seq<Rect>| #[trigger]
            level_generated(start.0@.map, rooms, seq![new_player()], world(start.1@), 1),
{
    let mut player = Object::new(0, 0, '@', "player", white(), true);
    player.alive = true;
    player.fighter = Some(
        Fighter {
            max_hp: 100,
            hp: 100,
            base_defense: 1,
            base_power: 2,
            xp: 0,
            on_death: DeathCallback::Player,
        },
    );

    let mut objects: Vec<Object> = Vec::new();
    objects.push(player);
    assert(world(objects@) =~= seq![new_player()]);

    let map = make_map(&mut objects, 1);
    let ghost rooms = choose|rooms: Seq<Rect>| #[trigger]
        level_generated(grid(map@), rooms, seq![new_player()], world(objects@), 1);
    let mut game = Game {
        map,
        messages: Messages::new(),
        inventory: Vec::new(),
        dungeon_level: 1,
    };

    let mut dagger = Object::new(0, 0, '-', "dagger", sky(), false);
    dagger.item = Some(Item::Sword);
    dagger.equipment = Some(
        Equipment {
            equipped: true,
            slot: Slot::LeftHand,
            hp_bonus: 0,
            defense_bonus: 0,
            power_bonus: 2,
        },
    );
    game.inventory.push(dagger);
    assert(world(game.inventory@) =~= seq![starting_dagger()]);

    game.messages.add_str("Yo, welcome!", red());
    assert(game.messages@ =~= seq![("Yo, welcome!"@, red())]);
    assert(level_generated(game@.map, rooms, seq![new_player()], world(objects@), 1));
    let start = (game, objects);
    assert(level_generated(start.0@.map, rooms, seq![new_player()], world(start.1@), 1));
    start
}

/// The hit points that a rest between levels gives back: half of the
/// player's own maximum.
pub open spec fn rest(player: ObjectView) -> int {
    match player.fighter {
        Some(f) => half(f.max_hp as int),
        None => 0,
    }
}

/// Whether the descent to the next level can be carried out: there is a
/// player and a next level, and every number that the rest computes fits in
/// an `i32`.
pub open spec fn descent_fits(objects: Seq<ObjectView>, game: GameView) -> bool {
    &&& objects.len() > 0
    &&& game.dungeon_level < u32::MAX
    &&& objects[0].fighter matches Some(f) ==> f.hp + rest(objects[0]) >= i32::MIN
}

/// The lines that the descent to the next level adds to the log.
pub open spec fn descent_lines() -> Seq<(Seq<char>, Color)> {
    seq![
        ("You take a moment to rest, and recover your strength."@, violet()),
        (
            "After a rare moment of peace, you descend deeper into the heart of the dungeon.."@,
            red(),
        ),
    ]
}

/// Takes the player down to the next level.
///
/// The player rests, which gives back half of their maximum hit points; then
/// a new level is generated one level deeper, and the old one is gone.
pub fn next_level(game: &mut Game, objects: &mut Vec<Object>)
    requires
        descent_fits(world(old(objects)@), old(game)@),
    ensures
        final(game)@.dungeon_level == old(game)@.dungeon_level + 1,
        final(game)@.inventory == old(game)@.inventory,
        final(game)@.messages == old(game)@.messages + descent_lines(),
        exists|rooms: Seq<Rect>| #[trigger]
            level_generated(
                final(game)@.map,
                rooms,
                world(old(objects)@).update(
                    0,
                    world(old(objects)@)[0].healed(rest(world(old(objects)@)[0])),
                ),
                world(final(objects)@),
                final(game)@.dungeon_level,
            ),
{
    game.messages.add_str("You take a moment to rest, and recover your strength.", violet());
    let heal_hp = match objects[PLAYER].fighter {
        Some(fighter) => fighter.max_hp / 2,
        None => 0,
    };
    objects[PLAYER].heal(heal_hp);
    let ghost rested = world(objects@);
    assert(rested =~= world(old(objects)@).update(
        0,
        world(old(objects)@)[0].healed(rest(world(old(objects)@)[0])),
    ));

    game.messages.add_str(
        "After a rare moment of peace, you descend deeper into the heart of the dungeon..",
        red(),
    );
    game.dungeon_level = game.dungeon_level + 1;
    let map = make_map(objects, game.dungeon_level);
    let ghost rooms = choose|rooms: Seq<Rect>| #[trigger]
        level_generated(grid(map@), rooms, rested, world(objects@), game.dungeon_level);
    game.map = map;
    assert(game@.messages =~= old(game)@.messages + descent_lines());
    assert(level_generated(game@.map, rooms, rested, world(objects@), game@.dungeon_level));
}

/// Whether every number that an attack of `monster` on `player` computes
/// fits in an `i32` whatever hit points the player has left, and the monster
/// can take the player's experience.
pub open spec fn attack_safe(
    monster: ObjectView,
    player: ObjectView,
    inventory: Seq<ObjectView>,
) -> bool {
    let damage = monster.damage_to(player, inventory);
    &&& i32::MIN <= monster.effective(Stat::Power, inventory) <= i32::MAX
    &&& i32::MIN <= player.effective(Stat::Defense, inventory) <= i32::MAX
    &&& i32::MIN <= damage <= i32::MAX
    &&& damage > 0 ==> (monster.fighter matches Some(own) && i32::MIN <= own.xp
        + player.experience() <= i32::MAX)
}

/// Whether the monsters' turns can be carried out: there is a player, who
/// does not act by the basic behaviour, and the attack of every monster that
/// does is safe.
pub open spec fn turns_fit(objects: Seq<ObjectView>, inventory: Seq<ObjectView>) -> bool {
    &&& objects.len() > 0
    &&& objects[0].ai != Some(AI::Basic)
    &&& forall|id: int|
        0 < id < objects.len() && (#[trigger] objects[id]).ai == Some(AI::Basic) ==> attack_safe(
            objects[id],
            objects[0],
            inventory,
        )
}

/// Whether `trace` records the monsters' turns that led from `before` to
/// `after`: it starts with `before` and ends with `after`, and each of its
/// steps is the turn of the entity at that position, in ascending order.
pub open spec fn turns_taken(
    before: (Seq<ObjectView>, GameView),
    after: (Seq<ObjectView>, GameView),
    f: Seq<Seq<FovCell>>,
    trace: Seq<(Seq<ObjectView>, GameView)>,
) -> bool {
    &&& trace.len() == before.0.len() + 1
    &&& trace[0] == before
    &&& trace.last() == after
    &&& forall|id: int|
        0 <= id < before.0.len() ==> turn_taken(#[trigger] trace[id], trace[id + 1], id, f)
}

/// The turn of one entity leaves all others but the player as they were,
/// and the level and the inventory too. A player who still fights
/// afterwards defends as before and has the experience they had.
pub proof fn lemma_turn_spares_others(
    before: (Seq<ObjectView>, GameView),
    after: (Seq<ObjectView>, GameView),
    id: int,
    f: Seq<Seq<FovCell>>,
)
    requires
        0 <= id < before.0.len(),
        before.0[id].ai == Some(AI::Basic) ==> id != 0,
        turn_taken(before, after, id, f),
    ensures
        after.0.len() == before.0.len(),
        after.1.inventory == before.1.inventory,
        after.1.map == before.1.map,
        after.1.dungeon_level == before.1.dungeon_level,
        forall|k: int| 0 < k < before.0.len() && k != id ==> #[trigger] after.0[k] == before.0[k],
        after.0[0].fighter matches Some(now) ==> (before.0[0].fighter matches Some(then)
            && now.base_defense == then.base_defense && now.xp == then.xp && now.on_death
            == then.on_death),
{
    match before.0[id].ai {
        None => {},
        Some(AI::Basic) => {},
        Some(AI::Confused { .. }) => {
            let (dx, dy) = choose|dx: int, dy: int| #[trigger]
                crate::objects::ai::stumbled(before, after, id, dx, dy);
        },
    }
}

/// Lets every entity that has a behaviour take its turn, in ascending
/// order.
pub fn monsters_take_turns(fov: &FovMap, game: &mut Game, objects: &mut Vec<Object>)
    requires
        turns_fit(world(old(objects)@), old(game)@.inventory),
    ensures
        exists|trace: Seq<(Seq<ObjectView>, GameView)>| #[trigger]
            turns_taken(
                (world(old(objects)@), old(game)@),
                (world(final(objects)@), final(game)@),
                fov@,
                trace,
            ),
{
    let ghost before = (world(objects@), game@);
    let ghost inventory = game@.inventory;
    let ghost mut trace: Seq<(Seq<ObjectView>, GameView)> = seq![before];
    let count = objects.len();
    let mut id: usize = 0;
    while id < count
        invariant
            id <= count,
            count == before.0.len(),
            objects@.len() == count,
            count > 0,
            game@.inventory == inventory,
            trace.len() == id + 1,
            trace[0] == before,
            trace[id as int] == (world(objects@), game@),
            forall|k: int| 0 <= k < id ==> turn_taken(#[trigger] trace[k], trace[k + 1], k, fov@),
            id == 0 ==> world(objects@)[0].ai != Some(AI::Basic),
            forall|k: int|
                id <= k < count && k > 0 && (#[trigger] world(objects@)[k]).ai == Some(AI::Basic)
                    ==> (world(objects@)[0].fighter is Some ==> attack_safe(
                    world(objects@)[k],
                    world(objects@)[0],
                    inventory,
                )),
        decreases count - id,
    {
        let ghost now = (world(objects@), game@);
        proof {
            if now.0[id as int].ai == Some(AI::Basic) {
                assert(id != 0);
                if basic_attacks(now.0, id as int, fov@) {
                    assert(attack_safe(now.0[id as int], now.0[0], inventory));
                }
            }
        }
        if objects[id].ai.is_some() {
            ai_take_turn(id, fov, game, objects);
        }
        proof {
            let next = (world(objects@), game@);
            assert(turn_taken(now, next, id as int, fov@)) by {
                if now.0[id as int].ai is None {
                    assert(next.0 =~= now.0);
                }
            }
            lemma_turn_spares_others(now, next, id as int, fov@);
            let longer = trace.push(next);
            assert forall|k: int| 0 <= k < id + 1 implies turn_taken(
                #[trigger] longer[k],
                longer[k + 1],
                k,
                fov@,
            ) by {
                if k < id {
                    assert(turn_taken(trace[k], trace[k + 1], k, fov@));
                }
            }
            assert forall|k: int|
                id + 1 <= k < count && k > 0 && (#[trigger] next.0[k]).ai == Some(
                    AI::Basic,
                ) && next.0[0].fighter is Some implies attack_safe(
                next.0[k],
                next.0[0],
                inventory,
            ) by {
                assert(next.0[k] == now.0[k]);
                assert(attack_safe(now.0[k], now.0[0], inventory));
            }
            trace = longer;
        }
        id += 1;
    }
    assert(turns_taken(before, (world(objects@), game@), fov@, trace));
}

/// Whether the world answers the player's action: the action took a turn,
/// and the player is alive to see the answer.
pub open spec fn world_answers(action: PlayerAction, objects: Seq<ObjectView>) -> bool {
    action == PlayerAction::TookTurn && objects[0].alive
}

/// Lets the world answer the player's action, and says whether it did.
///
/// After an action that took a turn, and with the player alive, every
/// entity that has a behaviour takes its turn. After any other action, and
/// around a dead player, nothing moves.
pub fn world_reacts(
    action: PlayerAction,
    fov: &FovMap,
    game: &mut Game,
    objects: &mut Vec<Object>,
) -> (reacted: bool)
    requires
        old(objects)@.len() > 0,
        world_answers(action, world(old(objects)@)) ==> turns_fit(
            world(old(objects)@),
            old(game)@.inventory,
        ),
    ensures
        reacted == world_answers(action, world(old(objects)@)),
        reacted ==> exists|trace: Seq<(Seq<ObjectView>, GameView)>| #[trigger]
            turns_taken(
                (world(old(objects)@), old(game)@),
                (world(final(objects)@), final(game)@),
                fov@,
                trace,
            ),
        !reacted ==> world(final(objects)@) == world(old(objects)@) && final(game)@ == old(game)@,
{
    if objects[PLAYER].alive && action == PlayerAction::TookTurn {
        monsters_take_turns(fov, game, objects);
        true
    } else {
        false
    }
}

} // verus!
