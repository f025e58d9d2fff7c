//! Items, the picking of their targets, and their effects.

use crate::colors::{light_blue, light_cyan, light_green, light_violet, orange, red, Color};
use crate::constants::{
    CONFUSE_NUM_TURNS, CONFUSE_RANGE, FIREBALL_DAMAGE, FIREBALL_RADIUS, HEAL_AMOUNT,
    LIGHTNING_DAMAGE, LIGHTNING_RANGE, MAP_HEIGHT, MAP_WIDTH, PLAYER,
};
use crate::fov::{visible, FovCell, FovMap};
use crate::objects::ai::AI;
use crate::objects::fighter::Fighter;
use crate::objects::game::{Game, GameView};
use crate::objects::object::{world, Object, ObjectView};
use crate::objects::player::{frame, framed};
use crate::text::{decimal, push_decimal};
use vstd::prelude::*;
use vstd::string::*;

verus! {

/// The item facet of an entity: what using it does.
#[derive(Clone, Copy, Debug, PartialEq, Eq, Structural)]
pub enum Item {
    Heal,
    Lightning,
    Confuse,
    Fireball,
    Sword,
    Shield,
}

/// How an attempt to use an item ended.
#[derive(Clone, Copy, Debug, PartialEq, Eq, Structural)]
pub enum UseResult {
    UsedUp,
    UsedAndKept,
    Cancelled,
}

/// What has to be picked before an item can be used.
#[derive(Clone, Copy, Debug, PartialEq, Eq, Structural)]
pub enum Targeting {
    Nothing,
    Tile { max_range: Option<i32> },
    Monster { max_range: Option<i32> },
}

/// What was picked for the use of an item.
#[derive(Clone, Copy, Debug, PartialEq, Eq, Structural)]
pub enum Target {
    Nothing,
    Tile(i32, i32),
    Monster(usize),
}

/// Where the pointer is and which of its buttons were pressed.
#[derive(Clone, Copy, Debug, PartialEq, Eq, Structural)]
pub struct Pointer {
    pub x: i32,
    pub y: i32,
    pub left_pressed: bool,
    pub right_pressed: bool,
}

/// How one round of picking a tile ended.
#[derive(Clone, Copy, Debug, PartialEq, Eq, Structural)]
pub enum TileChoice {
    Chosen(i32, i32),
    Cancelled,
    Pending,
}

/// How one round of picking a monster ended.
#[derive(Clone, Copy, Debug, PartialEq, Eq, Structural)]
pub enum MonsterChoice {
    Chosen(usize),
    Cancelled,
    Pending,
}

impl Item {
    /// What has to be picked before the item can be used: a monster within
    /// reach for confusion, any tile for a fireball, nothing for the others.
    pub open spec fn spec_targeting(self) -> Targeting {
        match self {
            Item::Confuse => Targeting::Monster { max_range: Some(CONFUSE_RANGE) },
            Item::Fireball => Targeting::Tile { max_range: None },
            _ => Targeting::Nothing,
        }
    }

    /// The line that asks the player to pick a target for the item, if the
    /// item needs one.
    pub open spec fn prompt(self) -> Seq<(Seq<char>, Color)> {
        match self {
            Item::Confuse => seq![
                ("Left-click an enemy to confuse it, or right-click to cancel."@, light_cyan()),
            ],
            Item::Fireball => seq![
                (
                    "Left-click a target tile for the fireball, or right-click to cancel."@,
                    light_cyan(),
                ),
            ],
            _ => Seq::empty(),
        }
    }

    /// What has to be picked before the item can be used.
    #[verifier::when_used_as_spec(spec_targeting)]
    pub fn targeting(self) -> (t: Targeting)
        ensures
            t == self.spec_targeting(),
    {
        match self {
            Item::Confuse => Targeting::Monster { max_range: Some(CONFUSE_RANGE) },
            Item::Fireball => Targeting::Tile { max_range: None },
            _ => Targeting::Nothing,
        }
    }
}

/// Whether a tile can be picked as a target: it lies on the level, in the
/// field of view, and within `max_range` of the player if there is a limit.
pub open spec fn targetable(
    objects: Seq<ObjectView>,
    f: Seq<Seq<FovCell>>,
    x: int,
    y: int,
    max_range: Option<i32>,
) -> bool {
    &&& x < MAP_WIDTH && y < MAP_HEIGHT && visible(f, x, y)
    &&& match max_range {
        Some(range) => objects[0].within(x, y, range as int),
        None => true,
    }
}

/// Whether entity `i` is a fighter other than the player, standing on
/// `(x, y)`.
pub open spec fn monster_on(objects: Seq<ObjectView>, i: int, x: int, y: int) -> bool {
    0 < i < objects.len() && objects[i].fighter is Some && objects[i].x == x && objects[i].y == y
}

/// Whether `i` is the first monster standing on `(x, y)`.
pub open spec fn first_monster_on(objects: Seq<ObjectView>, i: int, x: int, y: int) -> bool {
    monster_on(objects, i, x, y) && forall|j: int| 0 <= j < i ==> !#[trigger] monster_on(
        objects,
        j,
        x,
        y,
    )
}

/// Judges one round of picking a tile.
///
/// A left click on a tile that can be targeted chooses it; otherwise a right
/// click or the escape key cancels; otherwise the picking goes on.
pub fn target_tile(
    pointer: Pointer,
    escape: bool,
    fov: &FovMap,
    objects: &Vec<Object>,
    max_range: Option<i32>,
) -> (choice: TileChoice)
    requires
        objects@.len() > 0,
    ensures
        choice == if pointer.left_pressed && targetable(
            world(objects@),
            fov@,
            pointer.x as int,
            pointer.y as int,
            max_range,
        ) {
            TileChoice::Chosen(pointer.x, pointer.y)
        } else if pointer.right_pressed || escape {
            TileChoice::Cancelled
        } else {
            TileChoice::Pending
        },
{
    let (x, y) = (pointer.x, pointer.y);
    let in_fov = x < MAP_WIDTH && y < MAP_HEIGHT && fov.is_in_fov(x, y);
    let in_range = match max_range {
        Some(range) => objects[PLAYER].within(x, y, range),
        None => true,
    };
    if pointer.left_pressed && in_fov && in_range {
        return TileChoice::Chosen(x, y);
    }
    if pointer.right_pressed || escape {
        return TileChoice::Cancelled;
    }
    TileChoice::Pending
}

/// Finds the first monster standing on `(x, y)`.
pub fn monster_at(x: i32, y: i32, objects: &Vec<Object>) -> (found: Option<usize>)
    ensures
        match found {
            Some(i) => first_monster_on(world(objects@), i as int, x as int, y as int),
            None => forall|j: int|
                0 <= j < objects@.len() ==> !#[trigger] monster_on(
                    world(objects@),
                    j,
                    x as int,
                    y as int,
                ),
        },
{
    let mut i: usize = 0;
    while i < objects.len()
        invariant
            i <= objects@.len(),
            forall|j: int|
                0 <= j < i ==> !#[trigger] monster_on(world(objects@), j, x as int, y as int),
        decreases objects@.len() - i,
    {
        if objects[i].x == x && objects[i].y == y && objects[i].fighter.is_some() && i != PLAYER {
            return Some(i);
        }
        i += 1;
    }
    None
}

/// Judges one round of picking a monster.
///
/// A tile that is chosen chooses the first monster standing on it; with no
/// monster there the picking goes on. Cancelling cancels.
pub fn target_monster(
    pointer: Pointer,
    escape: bool,
    fov: &FovMap,
    objects: &Vec<Object>,
    max_range: Option<i32>,
) -> (choice: MonsterChoice)
    requires
        objects@.len() > 0,
    ensures
        match choice {
            MonsterChoice::Chosen(i) => {
                &&& pointer.left_pressed
                &&& targetable(
                    world(objects@),
                    fov@,
                    pointer.x as int,
                    pointer.y as int,
                    max_range,
                )
                &&& first_monster_on(world(objects@), i as int, pointer.x as int, pointer.y as int)
            },
            MonsterChoice::Cancelled => {
                &&& !(pointer.left_pressed && targetable(
                    world(objects@),
                    fov@,
                    pointer.x as int,
                    pointer.y as int,
                    max_range,
                ))
                &&& pointer.right_pressed || escape
            },
            MonsterChoice::Pending => {
                if pointer.left_pressed && targetable(
                    world(objects@),
                    fov@,
                    pointer.x as int,
                    pointer.y as int,
                    max_range,
                ) {
                    forall|j: int|
                        0 <= j < objects@.len() ==> !#[trigger] monster_on(
                            world(objects@),
                            j,
                            pointer.x as int,
                            pointer.y as int,
                        )
                } else {
                    !(pointer.right_pressed || escape)
                }
            },
        },
{
    match target_tile(pointer, escape, fov, objects, max_range) {
        TileChoice::Chosen(x, y) => match monster_at(x, y, objects) {
            Some(id) => MonsterChoice::Chosen(id),
            None => MonsterChoice::Pending,
        },
        TileChoice::Cancelled => MonsterChoice::Cancelled,
        TileChoice::Pending => MonsterChoice::Pending,
    }
}

/// What the use of an item comes to: how it ended, the entities and the
/// inventory afterwards, and the lines added to the log.
pub struct Outcome {
    pub result: UseResult,
    pub objects: Seq<ObjectView>,
    pub inventory: Seq<ObjectView>,
    pub lines: Seq<(Seq<char>, Color)>,
}

/// Whether `outcome` is what happened: the result, the entities and the
/// game afterwards are as it says, and nothing else about the game changed.
pub open spec fn came_about(
    outcome: Outcome,
    result: UseResult,
    objects_after: Seq<ObjectView>,
    game_before: GameView,
    game_after: GameView,
) -> bool {
    &&& result == outcome.result
    &&& objects_after == outcome.objects
    &&& game_after == GameView {
        inventory: outcome.inventory,
        messages: game_before.messages + outcome.lines,
        ..game_before
    }
}

/// What a healing potion does: nothing for a player who does not fight;
/// nothing but a remark for one whose hit points are at their maximum;
/// otherwise it restores hit points, up to the maximum, and is used up.
pub open spec fn heal_outcome(objects: Seq<ObjectView>, inventory: Seq<ObjectView>) -> Outcome {
    match objects[0].fighter {
        None => Outcome { result: UseResult::Cancelled, objects, inventory, lines: Seq::empty() },
        Some(f) => if f.hp == f.max_hp {
            Outcome {
                result: UseResult::Cancelled,
                objects,
                inventory,
                lines: seq![("You are already at full health."@, red())],
            }
        } else {
            Outcome {
                result: UseResult::UsedUp,
                objects: objects.update(0, objects[0].healed(HEAL_AMOUNT as int)),
                inventory,
                lines: seq![("Your wounds start to feel better!"@, light_violet())],
            }
        },
    }
}

/// Drinks a healing potion.
pub fn cast_heal(game: &mut Game, objects: &mut Vec<Object>) -> (result: UseResult)
    requires
        old(objects)@.len() > 0,
    ensures
        came_about(
            heal_outcome(world(old(objects)@), old(game)@.inventory),
            result,
            world(final(objects)@),
            old(game)@,
            final(game)@,
        ),
{
    let ghost before = world(objects@);
    if let Some(fighter) = objects[PLAYER].fighter {
        if fighter.hp == fighter.max_hp {
            game.messages.add_str("You are already at full health.", red());
            assert(game@.messages =~= old(game)@.messages + heal_outcome(
                before,
                old(game)@.inventory,
            ).lines);
            return UseResult::Cancelled;
        }
        game.messages.add_str("Your wounds start to feel better!", light_violet());
        objects[PLAYER].heal(HEAL_AMOUNT);
        assert(game@.messages =~= old(game)@.messages + heal_outcome(
            before,
            old(game)@.inventory,
        ).lines);
        assert(world(objects@) =~= heal_outcome(before, old(game)@.inventory).objects);
        return UseResult::UsedUp;
    }
    assert(game@.messages =~= old(game)@.messages + heal_outcome(
        before,
        old(game)@.inventory,
    ).lines);
    UseResult::Cancelled
}

/// Whether entity `i` is a monster that lightning can strike: a fighter
/// with a mind of its own, other than the player, in the field of view.
pub open spec fn strikable(objects: Seq<ObjectView>, f: Seq<Seq<FovCell>>, i: int) -> bool {
    &&& 0 < i < objects.len()
    &&& objects[i].fighter is Some
    &&& objects[i].ai is Some
    &&& visible(f, objects[i].x as int, objects[i].y as int)
}

/// The square of the distance from the player to entity `i`.
pub open spec fn gap(objects: Seq<ObjectView>, i: int) -> int {
    objects[0].distance_squared(objects[i].x as int, objects[i].y as int)
}

/// Whether a squared distance is that of something closer than one tile
/// beyond `max_range`.
pub open spec fn in_reach(distance_squared: int, max_range: int) -> bool {
    max_range + 1 > 0 && distance_squared < (max_range + 1) * (max_range + 1)
}

/// Whether entity `i` is the closest monster that lightning can strike
/// within `max_range`: none is closer, and none before it is as close.
pub open spec fn closest_is(
    objects: Seq<ObjectView>,
    f: Seq<Seq<FovCell>>,
    max_range: int,
    i: int,
) -> bool {
    &&& strikable(objects, f, i)
    &&& in_reach(gap(objects, i), max_range)
    &&& forall|j: int| #[trigger] strikable(objects, f, j) ==> gap(objects, j) >= gap(objects, i)
    &&& forall|j: int|
        j < i && #[trigger] strikable(objects, f, j) ==> gap(objects, j) > gap(objects, i)
}

/// The closest monster that lightning can strike within `max_range`, if
/// there is one.
pub open spec fn closest_target(
    objects: Seq<ObjectView>,
    f: Seq<Seq<FovCell>>,
    max_range: int,
) -> Option<int> {
    if exists|i: int| closest_is(objects, f, max_range, i) {
        Some(choose|i: int| closest_is(objects, f, max_range, i))
    } else {
        None
    }
}

/// There is at most one closest monster.
pub proof fn lemma_closest_unique(
    objects: Seq<ObjectView>,
    f: Seq<Seq<FovCell>>,
    max_range: int,
    i: int,
    j: int,
)
    requires
        closest_is(objects, f, max_range, i),
        closest_is(objects, f, max_range, j),
    ensures
        i == j,
{
    assert(strikable(objects, f, i));
    assert(strikable(objects, f, j));
}

/// Finds the closest monster in the field of view that is less than one tile
/// beyond `max_range` from the player.
pub fn closest_monster(fov: &FovMap, objects: &Vec<Object>, max_range: i32) -> (found: Option<
    usize,
>)
    ensures
        match found {
            Some(i) => closest_target(world(objects@), fov@, max_range as int) == Some(i as int),
            None => closest_target(world(objects@), fov@, max_range as int) is None,
        },
{
    let ghost all = world(objects@);
    let reach: i64 = max_range as i64 + 1;
    if reach <= 0 || objects.len() == 0 {
        assert forall|i: int| !closest_is(all, fov@, max_range as int, i) by {}
        return None;
    }
    let limit: u128 = reach as u128;
    assert(limit * limit <= 0x1_0000_0000_0000_0000) by (nonlinear_arith)
        requires
            0 <= limit <= 0x1_0000_0000,
    ;
    let mut closest_enemy: Option<usize> = None;
    let mut closest_dist: u128 = limit * limit;
    let mut id: usize = 0;
    while id < objects.len()
        invariant
            id <= objects@.len(),
            all == world(objects@),
            max_range + 1 > 0,
            closest_dist <= (max_range + 1) * (max_range + 1),
            closest_enemy is None ==> closest_dist == (max_range + 1) * (max_range + 1),
            closest_enemy matches Some(c) ==> {
                &&& c < id
                &&& strikable(all, fov@, c as int)
                &&& gap(all, c as int) == closest_dist
                &&& in_reach(closest_dist as int, max_range as int)
                &&& forall|j: int|
                    j < c && #[trigger] strikable(all, fov@, j) ==> gap(all, j) > closest_dist
            },
            forall|j: int|
                j < id && #[trigger] strikable(all, fov@, j) ==> gap(all, j) >= closest_dist,
        decreases objects@.len() - id,
    {
        let object = &objects[id];
        if id != PLAYER && object.fighter.is_some() && object.ai.is_some() && fov.is_in_fov(
            object.x,
            object.y,
        ) {
            let dist = objects[PLAYER].distance_squared_to(object);
            if dist < closest_dist {
                closest_enemy = Some(id);
                closest_dist = dist;
            }
        }
        id += 1;
    }
    proof {
        match closest_enemy {
            Some(c) => {
                assert(closest_is(all, fov@, max_range as int, c as int));
                let chosen = choose|i: int| closest_is(all, fov@, max_range as int, i);
                lemma_closest_unique(all, fov@, max_range as int, c as int, chosen);
            },
            None => {
                assert forall|i: int| !closest_is(all, fov@, max_range as int, i) by {
                    if closest_is(all, fov@, max_range as int, i) {
                        assert(strikable(all, fov@, i));
                    }
                }
            },
        }
    }
    closest_enemy
}

/// The line that reports a lightning bolt striking the entity called `name`.
pub open spec fn bolt_line(name: Seq<char>) -> (Seq<char>, Color) {
    (
        framed("A lightning bolt stricks the "@, name, ", the damage is "@) + decimal(
            LIGHTNING_DAMAGE as int,
        ) + " hit points."@,
        light_blue(),
    )
}

/// The entities after entity `i` took `damage` from the player's magic: the
/// entity is hurt, and the player gains its experience if it died.
pub open spec fn struck(objects: Seq<ObjectView>, i: int, damage: int) -> Seq<ObjectView> {
    let hit = objects.update(i, objects[i].after_damage(damage));
    match objects[i].reward(damage) {
        Some(xp) => hit.update(0, hit[0].with_xp_gain(xp as int)),
        None => hit,
    }
}

/// Whether every number that striking entity `i` for `damage` computes fits
/// in an `i32`, and the player can take the experience of a monster that
/// dies.
pub open spec fn strike_fits(objects: Seq<ObjectView>, i: int, damage: int) -> bool {
    objects[i].fighter matches Some(f) ==> {
        &&& damage > 0 ==> f.hp - damage >= i32::MIN
        &&& objects[i].dies_from(damage) ==> (objects[0].fighter matches Some(own) && i32::MIN
            <= own.xp + f.xp <= i32::MAX)
    }
}

/// What a lightning scroll does: it strikes the closest monster within
/// reach and is used up; with no monster within reach it is kept.
pub open spec fn lightning_outcome(
    objects: Seq<ObjectView>,
    f: Seq<Seq<FovCell>>,
    inventory: Seq<ObjectView>,
) -> Outcome {
    match closest_target(objects, f, LIGHTNING_RANGE as int) {
        None => Outcome {
            result: UseResult::Cancelled,
            objects,
            inventory,
            lines: seq![("No enemy is close enough to strike."@, red())],
        },
        Some(i) => Outcome {
            result: UseResult::UsedUp,
            objects: struck(objects, i, LIGHTNING_DAMAGE as int),
            inventory,
            lines: seq![bolt_line(objects[i].name)] + objects[i].damage_lines(
                LIGHTNING_DAMAGE as int,
            ),
        },
    }
}

/// Reads a lightning scroll.
pub fn cast_lightning(
    fov: &FovMap,
    game: &mut Game,
    objects: &mut Vec<Object>,
) -> (result: UseResult)
    requires
        old(objects)@.len() > 0,
        closest_target(world(old(objects)@), fov@, LIGHTNING_RANGE as int) matches Some(i)
            ==> strike_fits(world(old(objects)@), i, LIGHTNING_DAMAGE as int),
    ensures
        came_about(
            lightning_outcome(world(old(objects)@), fov@, old(game)@.inventory),
            result,
            world(final(objects)@),
            old(game)@,
            final(game)@,
        ),
{
    let ghost before = world(objects@);
    let ghost outcome = lightning_outcome(before, fov@, old(game)@.inventory);
    let monster_id = closest_monster(fov, objects, LIGHTNING_RANGE);
    if let Some(monster_id) = monster_id {
        proof {
            let i = closest_target(before, fov@, LIGHTNING_RANGE as int)->0;
            assert(closest_is(before, fov@, LIGHTNING_RANGE as int, i));
            assert(strikable(before, fov@, i));
        }
        let mut line = frame(
            "A lightning bolt stricks the ",
            objects[monster_id].name.as_str(),
            ", the damage is ",
        );
        push_decimal(&mut line, LIGHTNING_DAMAGE);
        line.append(" hit points.");
        game.messages.add(line, light_blue());
        if let Some(xp) = objects[monster_id].take_damage(LIGHTNING_DAMAGE, game) {
            if let Some(fighter) = objects[PLAYER].fighter {
                objects[PLAYER].fighter = Some(Fighter { xp: fighter.xp + xp, ..fighter });
            }
        }
        assert(world(objects@) =~= outcome.objects);
        assert(game@.messages =~= old(game)@.messages + outcome.lines);
        UseResult::UsedUp
    } else {
        game.messages.add_str("No enemy is close enough to strike.", red());
        assert(game@.messages =~= old(game)@.messages + outcome.lines);
        UseResult::Cancelled
    }
}

/// The entity with its wits scrambled for `turns` turns. It remembers the
/// behaviour it had; one that was confused already keeps the behaviour it
/// remembered, so that confusion never wraps confusion.
pub open spec fn befuddled(o: ObjectView, turns: i32) -> ObjectView {
    ObjectView {
        ai: Some(
            AI::Confused {
                previous_ai: Box::new(
                    match o.ai {
                        Some(ai) => ai.underlying(),
                        None => AI::Basic,
                    },
                ),
                num_turns: turns,
            },
        ),
        ..o
    }
}

/// What a confusion scroll does: it scrambles the wits of the monster that
/// was picked and is used up; with no monster picked it is kept.
pub open spec fn confuse_outcome(
    objects: Seq<ObjectView>,
    inventory: Seq<ObjectView>,
    monster: Option<usize>,
) -> Outcome {
    match monster {
        None => Outcome {
            result: UseResult::Cancelled,
            objects,
            inventory,
            lines: seq![("No enemy in range to strike."@, red())],
        },
        Some(i) => Outcome {
            result: UseResult::UsedUp,
            objects: objects.update(i as int, befuddled(objects[i as int], CONFUSE_NUM_TURNS)),
            inventory,
            lines: seq![
                (
                    framed(
                        "The eyes of "@,
                        objects[i as int].name,
                        " look vacant, as he starts to stumble around!"@,
                    ),
                    light_green(),
                ),
            ],
        },
    }
}

/// Reads a confusion scroll at the monster that was picked, if any was.
pub fn cast_confuse(
    monster: Option<usize>,
    game: &mut Game,
    objects: &mut Vec<Object>,
) -> (result: UseResult)
    requires
        monster matches Some(i) ==> i < old(objects)@.len(),
    ensures
        came_about(
            confuse_outcome(world(old(objects)@), old(game)@.inventory, monster),
            result,
            world(final(objects)@),
            old(game)@,
            final(game)@,
        ),
        monster matches Some(i) ==> ((world(old(objects)@)[i as int].ai matches Some(ai)
            ==> ai.wf()) ==> world(final(objects)@)[i as int].ai->0.wf()),
{
    let ghost before = world(objects@);
    let ghost outcome = confuse_outcome(before, old(game)@.inventory, monster);
    if let Some(monster_id) = monster {
        let old_ai = objects[monster_id].ai.take();
        let previous_ai: Box<AI> = match old_ai {
            Some(AI::Confused { previous_ai, num_turns: _ }) => previous_ai,
            Some(AI::Basic) => Box::new(AI::Basic),
            None => Box::new(AI::Basic),
        };
        objects[monster_id].ai = Some(AI::Confused { previous_ai, num_turns: CONFUSE_NUM_TURNS });
        let line = frame(
            "The eyes of ",
            objects[monster_id].name.as_str(),
            " look vacant, as he starts to stumble around!",
        );
        game.messages.add(line, light_green());
        assert(world(objects@) =~= outcome.objects);
        assert(game@.messages =~= old(game)@.messages + outcome.lines);
        UseResult::UsedUp
    } else {
        game.messages.add_str("No enemy in range to strike.", red());
        assert(game@.messages =~= old(game)@.messages + outcome.lines);
        UseResult::Cancelled
    }
}

/// Whether a fireball that bursts on `(x, y)` burns the entity: it is a
/// fighter within the blast. The player burns like any other.
pub open spec fn burns(o: ObjectView, x: int, y: int) -> bool {
    o.fighter is Some && o.within(x, y, FIREBALL_RADIUS as int)
}

/// The entity after a fireball burst on `(x, y)`.
pub open spec fn scorched(o: ObjectView, x: int, y: int) -> ObjectView {
    if burns(o, x, y) {
        o.after_damage(FIREBALL_DAMAGE as int)
    } else {
        o
    }
}

/// The line that reports the entity called `name` being burned.
pub open spec fn burn_line(name: Seq<char>) -> (Seq<char>, Color) {
    (
        framed("The "@, name, " gets burned for "@) + decimal(FIREBALL_DAMAGE as int)
            + " hit points."@,
        orange(),
    )
}

/// The line that reports the burst of a fireball.
pub open spec fn blast_line() -> (Seq<char>, Color) {
    (
        "The fireball explodes, burning everything within "@ + decimal(FIREBALL_RADIUS as int)
            + " tiles!"@,
        orange(),
    )
}

/// The lines that the burning of the first `upto` entities adds to the
/// log: for each one burned, that it burned, and its death if it died.
pub open spec fn burn_lines(objects: Seq<ObjectView>, x: int, y: int, upto: nat) -> Seq<
    (Seq<char>, Color),
>
    decreases upto,
{
    if upto == 0 {
        Seq::empty()
    } else {
        let o = objects[upto - 1];
        burn_lines(objects, x, y, (upto - 1) as nat) + if burns(o, x, y) {
            seq![burn_line(o.name)] + o.damage_lines(FIREBALL_DAMAGE as int)
        } else {
            Seq::empty()
        }
    }
}

/// The experience that the burning of the first `upto` entities earns the
/// player: that of every monster that died of it. The player's own death
/// earns nothing.
pub open spec fn burn_xp(objects: Seq<ObjectView>, x: int, y: int, upto: nat) -> int
    decreases upto,
{
    if upto == 0 {
        0
    } else {
        let o = objects[upto - 1];
        burn_xp(objects, x, y, (upto - 1) as nat) + if upto - 1 != 0 && burns(o, x, y) {
            match o.reward(FIREBALL_DAMAGE as int) {
                Some(xp) => xp as int,
                None => 0,
            }
        } else {
            0
        }
    }
}

/// The entities after a fireball burst on `(x, y)`: every one within the
/// blast is burned, and the player has the experience of the monsters that
/// died.
pub open spec fn after_blast(objects: Seq<ObjectView>, x: int, y: int) -> Seq<ObjectView> {
    Seq::new(
        objects.len(),
        |i: int|
            if i == 0 {
                scorched(objects[0], x, y).with_xp_gain(burn_xp(objects, x, y, objects.len()))
            } else {
                scorched(objects[i], x, y)
            },
    )
}

/// Whether every number that a fireball on `(x, y)` computes fits in an
/// `i32`, and the player is a fighter still after the blast.
pub open spec fn blast_fits(objects: Seq<ObjectView>, x: int, y: int) -> bool {
    &&& forall|i: int|
        0 <= i < objects.len() && burns(#[trigger] objects[i], x, y) ==> objects[i].fighter->0.hp
            - FIREBALL_DAMAGE >= i32::MIN
    &&& scorched(objects[0], x, y).fighter matches Some(f) && i32::MIN <= f.xp + burn_xp(
        objects,
        x,
        y,
        objects.len(),
    ) <= i32::MAX
}

/// What a fireball scroll does: it bursts on the tile that was picked,
/// burns every fighter within the blast and is used up; with no tile picked
/// it is kept.
pub open spec fn fireball_outcome(
    objects: Seq<ObjectView>,
    inventory: Seq<ObjectView>,
    target: Option<(i32, i32)>,
) -> Outcome {
    match target {
        None => Outcome { result: UseResult::Cancelled, objects, inventory, lines: Seq::empty() },
        Some((x, y)) => Outcome {
            result: UseResult::UsedUp,
            objects: after_blast(objects, x as int, y as int),
            inventory,
            lines: seq![blast_line()] + burn_lines(objects, x as int, y as int, objects.len()),
        },
    }
}

/// Reads a fireball scroll at the tile that was picked, if any was.
pub fn cast_fireball(
    target: Option<(i32, i32)>,
    game: &mut Game,
    objects: &mut Vec<Object>,
) -> (result: UseResult)
    requires
        target matches Some((x, y)) ==> old(objects)@.len() > 0 && blast_fits(
            world(old(objects)@),
            x as int,
            y as int,
        ),
    ensures
        came_about(
            fireball_outcome(world(old(objects)@), old(game)@.inventory, target),
            result,
            world(final(objects)@),
            old(game)@,
            final(game)@,
        ),
{
    let ghost before = world(objects@);
    let (x, y) = match target {
        Some(tile_pos) => tile_pos,
        None => {
            assert(game@.messages =~= old(game)@.messages + Seq::<(Seq<char>, Color)>::empty());
            return UseResult::Cancelled;
        },
    };
    let mut line = String::from_str("The fireball explodes, burning everything within ");
    push_decimal(&mut line, FIREBALL_RADIUS);
    line.append(" tiles!");
    game.messages.add(line, orange());

    let mut total_xp: i128 = 0;
    let mut id: usize = 0;
    assert(game@.messages =~= old(game)@.messages + seq![blast_line()] + burn_lines(
        before,
        x as int,
        y as int,
        0,
    ));
    while id < objects.len()
        invariant
            id <= objects@.len(),
            objects@.len() == before.len(),
            before.len() > 0,
            blast_fits(before, x as int, y as int),
            forall|i: int| 0 <= i < id ==> #[trigger] world(objects@)[i] == scorched(
                before[i],
                x as int,
                y as int,
            ),
            forall|i: int| id <= i < before.len() ==> #[trigger] world(objects@)[i] == before[i],
            total_xp == burn_xp(before, x as int, y as int, id as nat),
            -(id as int) * 0x8000_0000 <= total_xp <= (id as int) * 0x8000_0000,
            game@ == (GameView {
                messages: old(game)@.messages + seq![blast_line()] + burn_lines(
                    before,
                    x as int,
                    y as int,
                    id as nat,
                ),
                ..old(game)@
            }),
        decreases objects@.len() - id,
    {
        let ghost earlier = world(objects@);
        assert(earlier[id as int] == before[id as int]);
        if objects[id].within(x, y, FIREBALL_RADIUS) && objects[id].fighter.is_some() {
            assert(burns(before[id as int], x as int, y as int));
            let mut line = frame("The ", objects[id].name.as_str(), " gets burned for ");
            push_decimal(&mut line, FIREBALL_DAMAGE);
            line.append(" hit points.");
            game.messages.add(line, orange());
            if let Some(xp) = objects[id].take_damage(FIREBALL_DAMAGE, game) {
                if id != PLAYER {
                    total_xp = total_xp + xp as i128;
                }
            }
        }
        proof {
            assert(game@.messages =~= old(game)@.messages + seq![blast_line()] + burn_lines(
                before,
                x as int,
                y as int,
                (id + 1) as nat,
            ));
            assert(world(objects@) =~= earlier.update(
                id as int,
                scorched(before[id as int], x as int, y as int),
            ));
            assert forall|i: int| 0 <= i < id + 1 implies #[trigger] world(objects@)[i]
                == scorched(before[i], x as int, y as int) by {
                if i < id {
                    assert(earlier[i] == scorched(before[i], x as int, y as int));
                }
            }
            assert forall|i: int| id + 1 <= i < before.len() implies #[trigger] world(
                objects@,
            )[i] == before[i] by {
                assert(earlier[i] == before[i]);
            }
        }
        id += 1;
    }
    let ghost burned = world(objects@);
    assert(burned[0] == scorched(before[0], x as int, y as int));
    if let Some(fighter) = objects[PLAYER].fighter {
        objects[PLAYER].fighter = Some(
            Fighter { xp: (fighter.xp as i128 + total_xp) as i32, ..fighter },
        );
    }
    assert(world(objects@) =~= burned.update(
        0,
        burned[0].with_xp_gain(burn_xp(before, x as int, y as int, before.len())),
    ));
    assert forall|i: int| 0 <= i < before.len() implies world(objects@)[i] == after_blast(
        before,
        x as int,
        y as int,
    )[i] by {
        if i > 0 {
            assert(burned[i] == scorched(before[i], x as int, y as int));
        }
    }
    assert(world(objects@) =~= after_blast(before, x as int, y as int));
    assert(game@.messages =~= old(game)@.messages + (seq![blast_line()] + burn_lines(
        before,
        x as int,
        y as int,
        before.len(),
    )));
    UseResult::UsedUp
}

} // verus!
