//! What the player does: stepping and attacking, picking up and dropping,
//! using items, and rising in level.

use crate::colors::{green, light_cyan, red, white, yellow, Color};
use crate::constants::{
    INVENTORY_CAPACITY, LEVEL_UP_BASE, LEVEL_UP_FACTOR, LEVEL_UP_HP_GAIN, LIGHTNING_DAMAGE,
    LIGHTNING_RANGE, PLAYER,
};
use crate::fov::{FovCell, FovMap};
use crate::misc::mut_two;
use crate::objects::equipment::{toggle_equipment, toggle_lines, toggled};
use crate::objects::fighter::Fighter;
use crate::objects::item::{
    blast_fits, came_about, cast_confuse, cast_fireball, cast_heal, cast_lightning,
    closest_target, confuse_outcome, fireball_outcome, heal_outcome, lightning_outcome,
    strike_fits, Item, Outcome, Target, Targeting, UseResult,
};
use crate::objects::game::{Game, GameView};
use crate::objects::object::{world, Object, ObjectView};
use crate::objects::{move_by, stepped};
use crate::text::{decimal, push_decimal};
use vstd::prelude::*;
use vstd::string::*;

verus! {

/// Whether entity `i` is a fighter standing on `(x, y)`.
pub open spec fn fighter_at(objects: Seq<ObjectView>, i: int, x: int, y: int) -> bool {
    objects[i].fighter is Some && objects[i].x == x && objects[i].y == y
}

/// Whether `i` is the first position of `objects` that holds a fighter
/// standing on `(x, y)`.
pub open spec fn first_fighter_at(objects: Seq<ObjectView>, i: int, x: int, y: int) -> bool {
    &&& 0 <= i < objects.len()
    &&& fighter_at(objects, i, x, y)
    &&& forall|j: int| 0 <= j < i ==> !#[trigger] fighter_at(objects, j, x, y)
}

/// Whether no fighter stands on `(x, y)`.
pub open spec fn no_fighter_at(objects: Seq<ObjectView>, x: int, y: int) -> bool {
    forall|j: int| 0 <= j < objects.len() ==> !#[trigger] fighter_at(objects, j, x, y)
}

/// Finds the first fighter standing on `(x, y)`.
pub fn find_fighter_at(objects: &Vec<Object>, x: i64, y: i64) -> (found: Option<usize>)
    ensures
        match found {
            Some(i) => first_fighter_at(world(objects@), i as int, x as int, y as int),
            None => no_fighter_at(world(objects@), x as int, y as int),
        },
{
    let mut i: usize = 0;
    while i < objects.len()
        invariant
            i <= objects@.len(),
            forall|j: int|
                0 <= j < i ==> !#[trigger] fighter_at(world(objects@), j, x as int, y as int),
        decreases objects@.len() - i,
    {
        if objects[i].fighter.is_some() && objects[i].x as i64 == x && objects[i].y as i64 == y {
            assert(fighter_at(world(objects@), i as int, x as int, y as int));
            return Some(i);
        }
        i += 1;
    }
    None
}

/// The entities after the first of them attacked entity `target`.
pub open spec fn after_player_attack(
    objects: Seq<ObjectView>,
    target: int,
    inventory: Seq<ObjectView>,
) -> Seq<ObjectView> {
    objects.update(0, objects[0].after_attacking(objects[target], inventory)).update(
        target,
        objects[target].attacked_for(objects[0].damage_to(objects[target], inventory)),
    )
}

/// Whether the player's step by `(dx, dy)` can be carried out: there is a
/// player, the step does not make the player attack themselves, and if it
/// is an attack, every number that the attack computes fits in an `i32`.
pub open spec fn step_fits(
    objects: Seq<ObjectView>,
    inventory: Seq<ObjectView>,
    dx: int,
    dy: int,
) -> bool {
    &&& objects.len() > 0
    &&& dx != 0 || dy != 0 || objects[0].fighter is None
    &&& forall|t: int|
        first_fighter_at(objects, t, objects[0].x + dx, objects[0].y + dy)
            ==> objects[0].attack_fits(#[trigger] objects[t], inventory)
}

/// Whether `after` is what the player's step by `(dx, dy)` made of
/// `before`.
///
/// If a fighter stands on the tile the player would come to, the player has
/// attacked the first such fighter and stayed. Otherwise the player has
/// moved there unless the tile was blocked, and nothing else has changed.
pub open spec fn player_stepped(
    before: (Seq<ObjectView>, GameView),
    after: (Seq<ObjectView>, GameView),
    dx: int,
    dy: int,
) -> bool {
    let objects = before.0;
    let (x, y) = (objects[0].x + dx, objects[0].y + dy);
    &&& forall|t: int|
        first_fighter_at(objects, t, x, y) ==> {
            &&& after.0 == after_player_attack(objects, t, before.1.inventory)
            &&& after.1 == before.1.with_messages(
                objects[0].attack_lines(#[trigger] objects[t], before.1.inventory),
            )
        }
    &&& no_fighter_at(objects, x, y) ==> {
        &&& after.0 == stepped(objects, 0, dx, dy, before.1.map)
        &&& after.1 == before.1
    }
}

/// Lets the player step by `(dx, dy)`, or attack what stands there.
///
/// If a fighter stands on the tile the player would come to, the player
/// attacks the first such fighter and stays. Otherwise the player moves
/// there unless the tile is blocked.
pub fn player_move_or_attack(dx: i32, dy: i32, game: &mut Game, objects: &mut Vec<Object>)
    requires
        step_fits(world(old(objects)@), old(game)@.inventory, dx as int, dy as int),
    ensures
        player_stepped(
            (world(old(objects)@), old(game)@),
            (world(final(objects)@), final(game)@),
            dx as int,
            dy as int,
        ),
{
    let ghost before = world(objects@);
    let x: i64 = objects[PLAYER].x as i64 + dx as i64;
    let y: i64 = objects[PLAYER].y as i64 + dy as i64;
    let target_id = find_fighter_at(objects, x, y);
    match target_id {
        Some(target_id) => {
            proof {
                assert(first_fighter_at(before, target_id as int, x as int, y as int));
                assert(fighter_at(before, target_id as int, x as int, y as int));
                assert(target_id != 0) by {
                    if target_id == 0 {
                        assert(before[0].x == x && before[0].y == y);
                    }
                }
                assert forall|t: int| first_fighter_at(before, t, x as int, y as int) implies t
                    == target_id by {
                    if t < target_id {
                        assert(!fighter_at(before, t, x as int, y as int));
                    } else if target_id < t {
                        assert(!fighter_at(before, target_id as int, x as int, y as int));
                    }
                }
                assert(!no_fighter_at(before, x as int, y as int));
            }
            let (player, target) = mut_two(PLAYER, target_id, objects.as_mut_slice());
            player.attack(target, game);
            proof {
                assert(world(objects@) =~= after_player_attack(
                    before,
                    target_id as int,
                    old(game)@.inventory,
                ));
            }
        },
        None => {
            proof {
                assert forall|t: int| !first_fighter_at(before, t, x as int, y as int) by {
                    if first_fighter_at(before, t, x as int, y as int) {
                        assert(!fighter_at(before, t, x as int, y as int));
                    }
                }
            }
            move_by(PLAYER, dx, dy, &game.map, objects);
        },
    }
}

/// The text that names an entity between a lead-in and a close.
pub open spec fn framed(lead: Seq<char>, name: Seq<char>, close: Seq<char>) -> Seq<char> {
    lead + name + close
}

/// Writes an entity's name between a lead-in and a close.
pub fn frame(lead: &str, name: &str, close: &str) -> (line: String)
    ensures
        line@ == framed(lead@, name@, close@),
{
    let mut line = String::from_str(lead);
    line.append(name);
    line.append(close);
    line
}

/// The entities after the one at `id` was taken out: the last one has moved
/// into its place.
pub open spec fn taken_out(objects: Seq<ObjectView>, id: int) -> Seq<ObjectView> {
    objects.update(id, objects.last()).drop_last()
}

/// Picks up the entity at `object_id`: it leaves the level and joins the
/// inventory. With a full inventory nothing moves, and the log says why.
pub fn pick_item_up(object_id: usize, game: &mut Game, objects: &mut Vec<Object>)
    requires
        0 < object_id < old(objects)@.len(),
    ensures
        old(game)@.inventory.len() >= INVENTORY_CAPACITY ==> {
            &&& world(final(objects)@) == world(old(objects)@)
            &&& final(game)@ == old(game)@.with_message(
                framed(
                    "Your inventory is full, cannot pick up "@,
                    world(old(objects)@)[object_id as int].name,
                    "."@,
                ),
                red(),
            )
        },
        old(game)@.inventory.len() < INVENTORY_CAPACITY ==> {
            &&& world(final(objects)@) == taken_out(world(old(objects)@), object_id as int)
            &&& final(game)@ == (GameView {
                inventory: old(game)@.inventory.push(world(old(objects)@)[object_id as int]),
                messages: old(game)@.messages.push(
                    (
                        framed(
                            "You picked up a "@,
                            world(old(objects)@)[object_id as int].name,
                            "!"@,
                        ),
                        green(),
                    ),
                ),
                ..old(game)@
            })
        },
{
    if game.inventory.len() >= INVENTORY_CAPACITY {
        let line = frame(
            "Your inventory is full, cannot pick up ",
            objects[object_id].name.as_str(),
            ".",
        );
        game.messages.add(line, red());
    } else {
        let item = objects.swap_remove(object_id);
        let line = frame("You picked up a ", item.name.as_str(), "!");
        game.messages.add(line, green());
        game.inventory.push(item);
        assert(world(objects@) =~= taken_out(world(old(objects)@), object_id as int));
        assert(world(game.inventory@) =~= old(game)@.inventory.push(
            world(old(objects)@)[object_id as int],
        ));
    }
}

/// Drops the inventory's entity at `inventory_id`: it leaves the inventory
/// and comes to lie where the player stands, as the last entity of the
/// level.
pub fn drop_item(inventory_id: usize, game: &mut Game, objects: &mut Vec<Object>)
    requires
        inventory_id < old(game)@.inventory.len(),
        old(objects)@.len() > 0,
    ensures
        world(final(objects)@) == world(old(objects)@).push(
            ObjectView {
                x: world(old(objects)@)[0].x,
                y: world(old(objects)@)[0].y,
                ..old(game)@.inventory[inventory_id as int]
            },
        ),
        final(game)@ == (GameView {
            inventory: old(game)@.inventory.remove(inventory_id as int),
            messages: old(game)@.messages.push(
                (
                    framed("You dropped a "@, old(game)@.inventory[inventory_id as int].name, "."@),
                    yellow(),
                ),
            ),
            ..old(game)@
        }),
{
    let mut item = game.inventory.remove(inventory_id);
    item.set_pos(objects[PLAYER].x, objects[PLAYER].y);
    let line = frame("You dropped a ", item.name.as_str(), ".");
    game.messages.add(line, yellow());
    objects.push(item);
    assert(world(objects@) =~= world(old(objects)@).push(
        ObjectView {
            x: world(old(objects)@)[0].x,
            y: world(old(objects)@)[0].y,
            ..old(game)@.inventory[inventory_id as int]
        },
    ));
    assert(world(game.inventory@) =~= old(game)@.inventory.remove(inventory_id as int));
}

/// The statistic that a level-up raises.
#[derive(Clone, Copy, Debug, PartialEq, Eq, Structural)]
pub enum LevelUpChoice {
    MaxHp,
    Power,
    Defense,
}

impl LevelUpChoice {
    /// The choice at a position of the level-up menu, if the menu has that
    /// position.
    pub fn from_index(index: usize) -> (choice: Option<LevelUpChoice>)
        ensures
            choice == if index == 0 {
                Some(LevelUpChoice::MaxHp)
            } else if index == 1 {
                Some(LevelUpChoice::Power)
            } else if index == 2 {
                Some(LevelUpChoice::Defense)
            } else {
                None::<LevelUpChoice>
            },
    {
        if index == 0 {
            Some(LevelUpChoice::MaxHp)
        } else if index == 1 {
            Some(LevelUpChoice::Power)
        } else if index == 2 {
            Some(LevelUpChoice::Defense)
        } else {
            None
        }
    }
}

/// The experience that an entity of level `level` needs for its next
/// level. It is reckoned from the level the entity has, not the one it is
/// about to reach.
pub open spec fn level_up_threshold(level: int) -> int {
    LEVEL_UP_BASE + level * LEVEL_UP_FACTOR
}

impl ObjectView {
    /// The experience the entity has: that of its fighter, or none.
    pub open spec fn experience(self) -> int {
        match self.fighter {
            Some(f) => f.xp as int,
            None => 0,
        }
    }

    /// Whether the entity is due for a level-up: its experience has reached
    /// the threshold of its level.
    pub open spec fn level_up_due(self) -> bool {
        self.experience() >= level_up_threshold(self.level as int)
    }

    /// The entity after it rose one level by `choice`: the threshold is taken
    /// off its experience, its level is one higher, and the chosen statistic
    /// is raised. More maximum hit points come with hit points at the new
    /// maximum.
    pub open spec fn leveled_up(self, choice: LevelUpChoice) -> ObjectView {
        let f = self.fighter->0;
        let xp = (f.xp - level_up_threshold(self.level as int)) as i32;
        let raised = match choice {
            LevelUpChoice::MaxHp => Fighter {
                max_hp: (f.max_hp + LEVEL_UP_HP_GAIN) as i32,
                hp: (f.max_hp + LEVEL_UP_HP_GAIN) as i32,
                xp,
                ..f
            },
            LevelUpChoice::Power => Fighter { base_power: (f.base_power + 1) as i32, xp, ..f },
            LevelUpChoice::Defense => Fighter {
                base_defense: (f.base_defense + 1) as i32,
                xp,
                ..f
            },
        };
        ObjectView { level: (self.level + 1) as i32, fighter: Some(raised), ..self }
    }

    /// The line that announces the level the entity reaches.
    pub open spec fn level_up_line(self) -> Seq<char> {
        "Your battle skills grow stronger! You reached level "@ + decimal(self.level + 1) + "!"@
    }

    /// Whether a level-up by `choice` can be carried out if it is due: the
    /// entity has a fighter to raise, and every number that the level-up
    /// computes fits in an `i32`. One that is not due always can.
    pub open spec fn level_up_fits(self, choice: LevelUpChoice) -> bool {
        self.level_up_due() ==> {
            &&& self.fighter is Some
            &&& self.level < i32::MAX
            &&& self.experience() - level_up_threshold(self.level as int) <= i32::MAX
            &&& match choice {
                LevelUpChoice::MaxHp => self.fighter->0.max_hp + LEVEL_UP_HP_GAIN <= i32::MAX,
                LevelUpChoice::Power => self.fighter->0.base_power < i32::MAX,
                LevelUpChoice::Defense => self.fighter->0.base_defense < i32::MAX,
            }
        }
    }
}

/// The experience that an entity of level `level` needs for its next level.
pub fn level_up_xp(level: i32) -> (xp: i32)
    requires
        i32::MIN <= level_up_threshold(level as int) <= i32::MAX,
    ensures
        xp == level_up_threshold(level as int),
{
    let needed: i64 = LEVEL_UP_BASE as i64 + level as i64 * LEVEL_UP_FACTOR as i64;
    needed as i32
}

/// Whether the player is due for a level-up.
pub fn level_up_due(objects: &Vec<Object>) -> (due: bool)
    requires
        objects@.len() > 0,
    ensures
        due == world(objects@)[0].level_up_due(),
{
    let player = &objects[PLAYER];
    let xp: i64 = match player.fighter {
        Some(fighter) => fighter.xp as i64,
        None => 0,
    };
    xp >= LEVEL_UP_BASE as i64 + player.level as i64 * LEVEL_UP_FACTOR as i64
}

/// Raises the player by one level if the player's experience has reached
/// the threshold, and says whether it did.
///
/// The level-up is announced in the log, the threshold is taken off the
/// experience, and the statistic named by `choice` is raised. A player
/// whose experience is short of the threshold is left as they are.
pub fn level_up(
    choice: LevelUpChoice,
    game: &mut Game,
    objects: &mut Vec<Object>,
) -> (leveled: bool)
    requires
        old(objects)@.len() > 0,
        world(old(objects)@)[0].level_up_fits(choice),
    ensures
        leveled == world(old(objects)@)[0].level_up_due(),
        leveled ==> {
            &&& world(final(objects)@) == world(old(objects)@).update(
                0,
                world(old(objects)@)[0].leveled_up(choice),
            )
            &&& final(game)@ == old(game)@.with_message(
                world(old(objects)@)[0].level_up_line(),
                yellow(),
            )
        },
        !leveled ==> {
            &&& world(final(objects)@) == world(old(objects)@)
            &&& final(game)@ == old(game)@
        },
{
    let ghost before = world(objects@);
    let level_up_xp: i64 = LEVEL_UP_BASE as i64 + objects[PLAYER].level as i64
        * LEVEL_UP_FACTOR as i64;
    let xp: i64 = match objects[PLAYER].fighter {
        Some(fighter) => fighter.xp as i64,
        None => 0,
    };
    if xp >= level_up_xp {
        objects[PLAYER].level = objects[PLAYER].level + 1;
        let mut line = String::from_str("Your battle skills grow stronger! You reached level ");
        push_decimal(&mut line, objects[PLAYER].level);
        line.append("!");
        game.messages.add(line, yellow());
        if let Some(fighter) = objects[PLAYER].fighter {
            let rest: i32 = (fighter.xp as i64 - level_up_xp) as i32;
            match choice {
                LevelUpChoice::MaxHp => {
                    let max_hp = fighter.max_hp + LEVEL_UP_HP_GAIN;
                    objects[PLAYER].fighter = Some(
                        Fighter { max_hp, hp: max_hp, xp: rest, ..fighter },
                    );
                },
                LevelUpChoice::Power => {
                    objects[PLAYER].fighter = Some(
                        Fighter { base_power: fighter.base_power + 1, xp: rest, ..fighter },
                    );
                },
                LevelUpChoice::Defense => {
                    objects[PLAYER].fighter = Some(
                        Fighter { base_defense: fighter.base_defense + 1, xp: rest, ..fighter },
                    );
                },
            }
        }
        assert(world(objects@) =~= before.update(0, before[0].leveled_up(choice)));
        true
    } else {
        assert(world(objects@) =~= before);
        false
    }
}

/// Experience that just reaches the threshold earns one level-up and not a
/// second: the entity is due; once it has risen it is one level higher, has
/// no experience left and is not due again; and exactly the statistic that
/// was chosen is raised, more maximum hit points coming with hit points at
/// the new maximum. Nothing else about the entity changes.
pub proof fn lemma_level_up_at_threshold(player: ObjectView, choice: LevelUpChoice)
    requires
        player.fighter is Some,
        player.experience() == level_up_threshold(player.level as int),
        player.level_up_fits(choice),
        level_up_threshold(player.level + 1) > 0,
    ensures
        player.level_up_due(),
        player.leveled_up(choice).level == player.level + 1,
        player.leveled_up(choice).experience() == 0,
        !player.leveled_up(choice).level_up_due(),
        player.leveled_up(choice) == (ObjectView {
            level: player.leveled_up(choice).level,
            fighter: player.leveled_up(choice).fighter,
            ..player
        }),
        player.leveled_up(choice).fighter == Some(
            match choice {
                LevelUpChoice::MaxHp => Fighter {
                    max_hp: (player.fighter->0.max_hp + LEVEL_UP_HP_GAIN) as i32,
                    hp: (player.fighter->0.max_hp + LEVEL_UP_HP_GAIN) as i32,
                    xp: 0,
                    ..player.fighter->0
                },
                LevelUpChoice::Power => Fighter {
                    base_power: (player.fighter->0.base_power + 1) as i32,
                    xp: 0,
                    ..player.fighter->0
                },
                LevelUpChoice::Defense => Fighter {
                    base_defense: (player.fighter->0.base_defense + 1) as i32,
                    xp: 0,
                    ..player.fighter->0
                },
            },
        ),
        match choice {
            LevelUpChoice::MaxHp => player.leveled_up(choice).fighter->0.max_hp
                == player.fighter->0.max_hp + LEVEL_UP_HP_GAIN,
            LevelUpChoice::Power => player.leveled_up(choice).fighter->0.base_power
                == player.fighter->0.base_power + 1,
            LevelUpChoice::Defense => player.leveled_up(choice).fighter->0.base_defense
                == player.fighter->0.base_defense + 1,
        },
{
}

/// Experience short of the threshold earns no level-up, however little is
/// missing.
pub proof fn lemma_no_level_up_below_threshold(player: ObjectView)
    requires
        player.experience() < level_up_threshold(player.level as int),
    ensures
        !player.level_up_due(),
{
}

impl Target {
    /// The monster that was picked, if one was.
    pub open spec fn monster(self) -> Option<usize> {
        match self {
            Target::Monster(i) => Some(i),
            _ => None,
        }
    }

    /// The tile that was picked, if one was.
    pub open spec fn tile(self) -> Option<(i32, i32)> {
        match self {
            Target::Tile(x, y) => Some((x, y)),
            _ => None,
        }
    }
}

/// Announces the use of the inventory's entity at `inventory_id` and says
/// what has to be picked for it: an item that needs a target asks for one
/// in the log.
pub fn start_item_use(inventory_id: usize, game: &mut Game) -> (targeting: Targeting)
    requires
        inventory_id < old(game)@.inventory.len(),
    ensures
        targeting == match old(game)@.inventory[inventory_id as int].item {
            Some(item) => item.targeting(),
            None => Targeting::Nothing,
        },
        final(game)@ == old(game)@.with_messages(
            match old(game)@.inventory[inventory_id as int].item {
                Some(item) => item.prompt(),
                None => Seq::empty(),
            },
        ),
{
    match game.inventory[inventory_id].item {
        Some(Item::Confuse) => {
            game.messages.add_str(
                "Left-click an enemy to confuse it, or right-click to cancel.",
                light_cyan(),
            );
            assert(game@.messages =~= old(game)@.messages + Item::Confuse.prompt());
            Item::Confuse.targeting()
        },
        Some(Item::Fireball) => {
            game.messages.add_str(
                "Left-click a target tile for the fireball, or right-click to cancel.",
                light_cyan(),
            );
            assert(game@.messages =~= old(game)@.messages + Item::Fireball.prompt());
            Item::Fireball.targeting()
        },
        Some(item) => {
            assert(game@.messages =~= old(game)@.messages + item.prompt());
            item.targeting()
        },
        None => {
            assert(game@.messages =~= old(game)@.messages + Seq::<(Seq<char>, Color)>::empty());
            Targeting::Nothing
        },
    }
}

/// What the effect of an item comes to, before the item is taken out of the
/// inventory or the action is reported as cancelled.
pub open spec fn effect_outcome(
    item: Item,
    inventory_id: int,
    target: Target,
    objects: Seq<ObjectView>,
    f: Seq<Seq<FovCell>>,
    inventory: Seq<ObjectView>,
) -> Outcome {
    match item {
        Item::Heal => heal_outcome(objects, inventory),
        Item::Lightning => lightning_outcome(objects, f, inventory),
        Item::Confuse => confuse_outcome(objects, inventory, target.monster()),
        Item::Fireball => fireball_outcome(objects, inventory, target.tile()),
        Item::Sword | Item::Shield => Outcome {
            result: if inventory[inventory_id].equipment is Some {
                UseResult::UsedAndKept
            } else {
                UseResult::Cancelled
            },
            objects,
            inventory: toggled(inventory, inventory_id),
            lines: toggle_lines(inventory, inventory_id),
        },
    }
}

/// What using the inventory's entity at `inventory_id` comes to.
///
/// An entity that is no item cannot be used, and the log says so. An item
/// has its effect; one that is used up leaves the inventory, and an action
/// that was cancelled is reported as such and leaves the inventory as it
/// was.
pub open spec fn use_outcome(
    inventory_id: int,
    target: Target,
    objects: Seq<ObjectView>,
    f: Seq<Seq<FovCell>>,
    inventory: Seq<ObjectView>,
) -> Outcome {
    match inventory[inventory_id].item {
        None => Outcome {
            result: UseResult::Cancelled,
            objects,
            inventory,
            lines: seq![
                (framed("The "@, inventory[inventory_id].name, " cannot be used."@), white()),
            ],
        },
        Some(item) => {
            let effect = effect_outcome(item, inventory_id, target, objects, f, inventory);
            match effect.result {
                UseResult::UsedUp => Outcome {
                    inventory: effect.inventory.remove(inventory_id),
                    ..effect
                },
                UseResult::UsedAndKept => effect,
                UseResult::Cancelled => Outcome {
                    lines: effect.lines.push(("Cancelled"@, white())),
                    ..effect
                },
            }
        },
    }
}

/// Whether the use of the inventory's entity at `inventory_id` can be
/// carried out: what it needs is there, and every number it computes fits
/// in an `i32`.
pub open spec fn use_fits(
    inventory_id: int,
    target: Target,
    objects: Seq<ObjectView>,
    f: Seq<Seq<FovCell>>,
    inventory: Seq<ObjectView>,
) -> bool {
    match inventory[inventory_id].item {
        None => true,
        Some(Item::Heal) => objects.len() > 0,
        Some(Item::Lightning) => objects.len() > 0 && (closest_target(
            objects,
            f,
            LIGHTNING_RANGE as int,
        ) matches Some(i) ==> strike_fits(objects, i, LIGHTNING_DAMAGE as int)),
        Some(Item::Confuse) => target.monster() matches Some(i) ==> i < objects.len(),
        Some(Item::Fireball) => target.tile() matches Some((x, y)) ==> objects.len() > 0
            && blast_fits(objects, x as int, y as int),
        Some(Item::Sword) => true,
        Some(Item::Shield) => true,
    }
}

/// Uses the inventory's entity at `inventory_id` on what was picked for
/// it.
pub fn use_item(
    inventory_id: usize,
    target: Target,
    fov: &FovMap,
    game: &mut Game,
    objects: &mut Vec<Object>,
) -> (result: UseResult)
    requires
        inventory_id < old(game)@.inventory.len(),
        use_fits(
            inventory_id as int,
            target,
            world(old(objects)@),
            fov@,
            old(game)@.inventory,
        ),
    ensures
        came_about(
            use_outcome(
                inventory_id as int,
                target,
                world(old(objects)@),
                fov@,
                old(game)@.inventory,
            ),
            result,
            world(final(objects)@),
            old(game)@,
            final(game)@,
        ),
{
    let ghost outcome = use_outcome(
        inventory_id as int,
        target,
        world(objects@),
        fov@,
        game@.inventory,
    );
    if let Some(item) = game.inventory[inventory_id].item {
        let ghost effect = effect_outcome(
            item,
            inventory_id as int,
            target,
            world(objects@),
            fov@,
            game@.inventory,
        );
        let result = match item {
            Item::Heal => cast_heal(game, objects),
            Item::Lightning => cast_lightning(fov, game, objects),
            Item::Confuse => {
                let monster = match target {
                    Target::Monster(i) => Some(i),
                    _ => None,
                };
                cast_confuse(monster, game, objects)
            },
            Item::Fireball => {
                let tile = match target {
                    Target::Tile(x, y) => Some((x, y)),
                    _ => None,
                };
                cast_fireball(tile, game, objects)
            },
            Item::Sword => toggle_equipment(inventory_id, game),
            Item::Shield => toggle_equipment(inventory_id, game),
        };
        assert(came_about(effect, result, world(objects@), old(game)@, game@));
        match result {
            UseResult::UsedUp => {
                game.inventory.remove(inventory_id);
                assert(world(game.inventory@) =~= effect.inventory.remove(inventory_id as int));
            },
            UseResult::UsedAndKept => {},
            UseResult::Cancelled => {
                game.messages.add_str("Cancelled", white());
                assert(game@.messages =~= old(game)@.messages + outcome.lines);
            },
        }
        result
    } else {
        let line = frame("The ", game.inventory[inventory_id].name.as_str(), " cannot be used.");
        game.messages.add(line, white());
        assert(game@.messages =~= old(game)@.messages + outcome.lines);
        UseResult::Cancelled
    }
}

} // verus!
