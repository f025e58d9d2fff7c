//! The behaviour of monsters.

use crate::colors::{red, Color};
use crate::constants::PLAYER;
use crate::fov::{visible, FovCell, FovMap};
use crate::misc::mut_two;
use crate::objects::game::{Game, GameView};
use crate::objects::object::{world, Object, ObjectView};
use crate::objects::player::{frame, framed};
use crate::objects::{move_by, stepped};
use crate::random::random_range;
use crate::tiles::{grid, Tile, TileMap};
use vstd::prelude::*;
use vstd::string::*;

verus! {

/// The behaviour facet of a monster.
///
/// A confused monster remembers the behaviour it returns to once the
/// confusion wears off.
#[derive(Debug, PartialEq, Eq)]
pub enum AI {
    Basic,
    Confused { previous_ai: Box<AI>, num_turns: i32 },
}

impl AI {
    /// Whether the behaviour is well formed: confusion never wraps confusion.
    pub open spec fn wf(self) -> bool {
        match self {
            AI::Basic => true,
            AI::Confused { previous_ai, .. } => *previous_ai is Basic,
        }
    }

    /// The behaviour a monster falls back to: its own when it is not
    /// confused, the remembered one when it is.
    pub open spec fn underlying(self) -> AI {
        match self {
            AI::Basic => AI::Basic,
            AI::Confused { previous_ai, .. } => *previous_ai,
        }
    }
}

impl AI {
    /// The behaviour after one evaluation: confusion lasts one turn less, and
    /// with its last turn it gives way to the behaviour remembered. Confusion
    /// with no turn left gives way at once.
    pub open spec fn evaluated(self) -> AI {
        match self {
            AI::Basic => AI::Basic,
            AI::Confused { previous_ai, num_turns } => if num_turns > 1 {
                AI::Confused { previous_ai, num_turns: (num_turns - 1) as i32 }
            } else {
                *previous_ai
            },
        }
    }

    /// The behaviour after `evaluations` evaluations.
    pub open spec fn after_evaluations(self, evaluations: nat) -> AI
        decreases evaluations,
    {
        if evaluations == 0 {
            self
        } else {
            self.evaluated().after_evaluations((evaluations - 1) as nat)
        }
    }

    /// Whether the behaviour is confusion that ends with this evaluation.
    pub open spec fn recovers(self) -> bool {
        self matches AI::Confused { num_turns, .. } && num_turns <= 1
    }

    /// Whether the behaviour is confusion with at least one turn left.
    pub open spec fn stumbles(self) -> bool {
        self matches AI::Confused { num_turns, .. } && num_turns > 0
    }
}

/// Confusion for `turns` turns lasts exactly that many evaluations: after
/// fewer the monster is still confused, with as many turns left as are
/// still to come, and after the last it has the behaviour it had before.
pub proof fn lemma_confusion_wears_off(previous: AI, turns: i32, evaluations: nat)
    requires
        turns > 0,
        evaluations <= turns,
    ensures
        evaluations < turns ==> (AI::Confused {
            previous_ai: Box::new(previous),
            num_turns: turns,
        }).after_evaluations(evaluations) == (AI::Confused {
            previous_ai: Box::new(previous),
            num_turns: (turns - evaluations) as i32,
        }),
        evaluations == turns ==> (AI::Confused {
            previous_ai: Box::new(previous),
            num_turns: turns,
        }).after_evaluations(evaluations) == previous,
    decreases evaluations,
{
    let confused = AI::Confused { previous_ai: Box::new(previous), num_turns: turns };
    if evaluations > 0 {
        if turns > 1 {
            lemma_confusion_wears_off(previous, (turns - 1) as i32, (evaluations - 1) as nat);
            assert(confused.evaluated() == AI::Confused {
                previous_ai: Box::new(previous),
                num_turns: (turns - 1) as i32,
            });
        } else {
            assert(confused.evaluated() == previous);
            assert(previous.after_evaluations(0) == previous);
        }
    }
}

/// One coordinate of the step from a tile towards another that lies
/// `along` further in this coordinate and `across` in the other: the
/// direction to the target, rounded to the nearest of the eight neighbours.
pub open spec fn toward(along: int, across: int) -> int {
    if 3 * along * along >= across * across {
        if along > 0 {
            1
        } else if along < 0 {
            -1
        } else {
            0
        }
    } else {
        0
    }
}

/// One coordinate of the step towards a target.
pub fn step_toward(along: i64, across: i64) -> (step: i32)
    requires
        -0x1_0000_0000 <= along <= 0x1_0000_0000,
        -0x1_0000_0000 <= across <= 0x1_0000_0000,
    ensures
        step == toward(along as int, across as int),
{
    let a: i128 = along as i128;
    let c: i128 = across as i128;
    assert(0 <= a * a <= 0x1_0000_0000_0000_0000) by (nonlinear_arith)
        requires
            -0x1_0000_0000 <= a <= 0x1_0000_0000,
    ;
    assert(0 <= c * c <= 0x1_0000_0000_0000_0000) by (nonlinear_arith)
        requires
            -0x1_0000_0000 <= c <= 0x1_0000_0000,
    ;
    assert(3 * a * a == 3 * (a * a)) by (nonlinear_arith);
    if 3 * (a * a) >= c * c {
        if along > 0 {
            1
        } else if along < 0 {
            -1
        } else {
            0
        }
    } else {
        0
    }
}

/// The entities after entity `id` took one greedy step towards
/// `(target_x, target_y)`, if the tile it would come to is free.
pub open spec fn approached(
    objects: Seq<ObjectView>,
    id: int,
    target_x: int,
    target_y: int,
    g: Seq<Seq<Tile>>,
) -> Seq<ObjectView> {
    let dx = target_x - objects[id].x;
    let dy = target_y - objects[id].y;
    stepped(objects, id, toward(dx, dy), toward(dy, dx), g)
}

/// Moves entity `id` one tile towards `(target_x, target_y)` unless the
/// tile it would come to is blocked.
pub fn move_towards(
    id: usize,
    target_x: i32,
    target_y: i32,
    map: &TileMap,
    objects: &mut Vec<Object>,
)
    requires
        id < old(objects)@.len(),
    ensures
        world(final(objects)@) == approached(
            world(old(objects)@),
            id as int,
            target_x as int,
            target_y as int,
            grid(map@),
        ),
{
    let dx: i64 = target_x as i64 - objects[id].x as i64;
    let dy: i64 = target_y as i64 - objects[id].y as i64;
    let step_x = step_toward(dx, dy);
    let step_y = step_toward(dy, dx);
    move_by(id, step_x, step_y, map, objects);
}

/// What a turn of a monster with the basic behaviour comes to: the
/// entities afterwards, and the lines added to the log.
///
/// A dead monster does nothing, and neither does one outside the field of
/// view: a monster sees the player exactly when the player sees it. One
/// that is further than a tile away approaches. One that is next to the
/// player attacks, if the player still has hit points.
pub open spec fn basic_turn(
    objects: Seq<ObjectView>,
    id: int,
    f: Seq<Seq<FovCell>>,
    g: Seq<Seq<Tile>>,
    inventory: Seq<ObjectView>,
) -> (Seq<ObjectView>, Seq<(Seq<char>, Color)>) {
    let monster = objects[id];
    let player = objects[0];
    if !monster.alive || !visible(f, monster.x as int, monster.y as int) {
        (objects, Seq::empty())
    } else if monster.distance_squared(player.x as int, player.y as int) >= 4 {
        (approached(objects, id, player.x as int, player.y as int, g), Seq::empty())
    } else if basic_attacks(objects, id, f) {
        (
            objects.update(id, monster.after_attacking(player, inventory)).update(
                0,
                player.attacked_for(monster.damage_to(player, inventory)),
            ),
            monster.attack_lines(player, inventory),
        )
    } else {
        (objects, Seq::empty())
    }
}

/// Whether the turn of monster `id` with the basic behaviour is an attack on
/// the player.
pub open spec fn basic_attacks(objects: Seq<ObjectView>, id: int, f: Seq<Seq<FovCell>>) -> bool {
    let monster = objects[id];
    let player = objects[0];
    &&& monster.alive
    &&& visible(f, monster.x as int, monster.y as int)
    &&& monster.distance_squared(player.x as int, player.y as int) < 4
    &&& player.fighter matches Some(fighter) && fighter.hp > 0
}

/// Lets monster `monster_id` act by the basic behaviour.
pub fn ai_basic(monster_id: usize, fov: &FovMap, game: &mut Game, objects: &mut Vec<Object>)
    requires
        0 < monster_id < old(objects)@.len(),
        basic_attacks(world(old(objects)@), monster_id as int, fov@) ==> world(
            old(objects)@,
        )[monster_id as int].attack_fits(world(old(objects)@)[0], old(game)@.inventory),
    ensures
        world(final(objects)@) == basic_turn(
            world(old(objects)@),
            monster_id as int,
            fov@,
            old(game)@.map,
            old(game)@.inventory,
        ).0,
        final(game)@ == old(game)@.with_messages(
            basic_turn(
                world(old(objects)@),
                monster_id as int,
                fov@,
                old(game)@.map,
                old(game)@.inventory,
            ).1,
        ),
{
    let ghost before = world(objects@);
    let (monster_x, monster_y) = objects[monster_id].pos();
    if objects[monster_id].alive && fov.is_in_fov(monster_x, monster_y) {
        if objects[monster_id].distance_squared_to(&objects[PLAYER]) >= 4 {
            let (player_x, player_y) = objects[PLAYER].pos();
            move_towards(monster_id, player_x, player_y, &game.map, objects);
            assert(game@.messages =~= old(game)@.messages + Seq::<(Seq<char>, Color)>::empty());
            return ;
        }
        let player_lives = match objects[PLAYER].fighter {
            Some(fighter) => fighter.hp > 0,
            None => false,
        };
        if player_lives {
            let (monster, player) = mut_two(monster_id, PLAYER, objects.as_mut_slice());
            monster.attack(player, game);
            assert(world(objects@) =~= basic_turn(
                before,
                monster_id as int,
                fov@,
                old(game)@.map,
                old(game)@.inventory,
            ).0);
            return ;
        }
    }
    assert(world(objects@) =~= before);
    assert(game@.messages =~= old(game)@.messages + Seq::<(Seq<char>, Color)>::empty());
}

/// What a turn of a confused monster comes to when its stumble is
/// `(dx, dy)`: the entities afterwards, and the lines added to the log.
///
/// While it has a turn of confusion left the monster stumbles, if the tile
/// it would come to is free, and its confusion lasts one turn less. When no
/// turn is left it has the behaviour it had before, and the log says that it
/// recovered.
pub open spec fn confused_turn(
    objects: Seq<ObjectView>,
    id: int,
    dx: int,
    dy: int,
    g: Seq<Seq<Tile>>,
) -> (Seq<ObjectView>, Seq<(Seq<char>, Color)>) {
    let ai = objects[id].ai->0;
    let moved = if ai.stumbles() {
        stepped(objects, id, dx, dy, g)
    } else {
        objects
    };
    (
        moved.update(id, ObjectView { ai: Some(ai.evaluated()), ..moved[id] }),
        if ai.recovers() {
            seq![(framed("The "@, objects[id].name, " is no longer confused!"@), red())]
        } else {
            Seq::empty()
        },
    )
}

/// A confused monster stays near: its turn takes it to one of the eight
/// neighbouring tiles or leaves it where it is, and moves nobody else.
pub proof fn lemma_confused_stays_near(
    objects: Seq<ObjectView>,
    id: int,
    dx: int,
    dy: int,
    g: Seq<Seq<Tile>>,
)
    requires
        0 <= id < objects.len(),
        objects[id].ai is Some,
        is_stumble(dx, dy),
    ensures
        confused_turn(objects, id, dx, dy, g).0.len() == objects.len(),
        -1 <= confused_turn(objects, id, dx, dy, g).0[id].x - objects[id].x <= 1,
        -1 <= confused_turn(objects, id, dx, dy, g).0[id].y - objects[id].y <= 1,
        forall|k: int|
            0 <= k < objects.len() && k != id ==> #[trigger] confused_turn(
                objects,
                id,
                dx,
                dy,
                g,
            ).0[k] == objects[k],
{
}

/// Lets the confused monster `monster_id` take its turn with the stumble
/// `(dx, dy)`.
pub fn ai_confused(
    monster_id: usize,
    dx: i32,
    dy: i32,
    game: &mut Game,
    objects: &mut Vec<Object>,
)
    requires
        monster_id < old(objects)@.len(),
        world(old(objects)@)[monster_id as int].ai matches Some(ai) && ai is Confused,
    ensures
        world(final(objects)@) == confused_turn(
            world(old(objects)@),
            monster_id as int,
            dx as int,
            dy as int,
            old(game)@.map,
        ).0,
        final(game)@ == old(game)@.with_messages(
            confused_turn(
                world(old(objects)@),
                monster_id as int,
                dx as int,
                dy as int,
                old(game)@.map,
            ).1,
        ),
{
    let ghost before = world(objects@);
    let ghost outcome = confused_turn(
        before,
        monster_id as int,
        dx as int,
        dy as int,
        old(game)@.map,
    );
    let stumbles = match &objects[monster_id].ai {
        Some(AI::Confused { previous_ai: _, num_turns }) => *num_turns > 0,
        _ => false,
    };
    if stumbles {
        move_by(monster_id, dx, dy, &game.map, objects);
    }
    let ghost moved = world(objects@);
    assert(moved.len() == before.len());
    assert(objects@.len() == moved.len());
    assert(moved[monster_id as int].ai == before[monster_id as int].ai);
    assert(moved[monster_id as int].name == before[monster_id as int].name);
    let ai = objects[monster_id].ai.take();
    if let Some(AI::Confused { previous_ai, num_turns }) = ai {
        if num_turns > 1 {
            objects[monster_id].ai = Some(AI::Confused { previous_ai, num_turns: num_turns - 1 });
        } else {
            let line = frame("The ", objects[monster_id].name.as_str(), " is no longer confused!");
            game.messages.add(line, red());
            objects[monster_id].ai = Some(*previous_ai);
        }
    }
    assert(world(objects@) =~= outcome.0);
    assert(game@.messages =~= old(game)@.messages + outcome.1);
}

/// Whether `(dx, dy)` is a stumble: a step to one of the eight neighbouring
/// tiles, or none at all.
pub open spec fn is_stumble(dx: int, dy: int) -> bool {
    -1 <= dx <= 1 && -1 <= dy <= 1
}

/// Whether `after` is what the turn of the confused monster `id` made of
/// `before` when its stumble was `(dx, dy)`.
pub open spec fn stumbled(
    before: (Seq<ObjectView>, GameView),
    after: (Seq<ObjectView>, GameView),
    id: int,
    dx: int,
    dy: int,
) -> bool {
    &&& is_stumble(dx, dy)
    &&& after.0 == confused_turn(before.0, id, dx, dy, before.1.map).0
    &&& after.1 == before.1.with_messages(confused_turn(before.0, id, dx, dy, before.1.map).1)
}

/// Whether `after` is what the turn of entity `id` made of `before`.
///
/// An entity without a behaviour does nothing. One with the basic
/// behaviour acts as [`basic_turn`] says. A confused one acts as
/// [`confused_turn`] says of some stumble.
pub open spec fn turn_taken(
    before: (Seq<ObjectView>, GameView),
    after: (Seq<ObjectView>, GameView),
    id: int,
    f: Seq<Seq<FovCell>>,
) -> bool {
    match before.0[id].ai {
        None => after == before,
        Some(AI::Basic) => {
            &&& after.0 == basic_turn(before.0, id, f, before.1.map, before.1.inventory).0
            &&& after.1 == before.1.with_messages(
                basic_turn(before.0, id, f, before.1.map, before.1.inventory).1,
            )
        },
        Some(AI::Confused { .. }) => exists|dx: int, dy: int| #[trigger]
            stumbled(before, after, id, dx, dy),
    }
}

/// Whether the turn of entity `id` can be carried out: one with the basic
/// behaviour is not the player, and if it attacks, every number that the
/// attack computes fits in an `i32`.
pub open spec fn turn_fits(
    objects: Seq<ObjectView>,
    id: int,
    f: Seq<Seq<FovCell>>,
    inventory: Seq<ObjectView>,
) -> bool {
    objects[id].ai == Some(AI::Basic) ==> {
        &&& id != 0
        &&& basic_attacks(objects, id, f) ==> objects[id].attack_fits(objects[0], inventory)
    }
}

/// Lets entity `monster_id` take its turn, by the behaviour it has.
///
/// The stumble of a confused monster is drawn at random.
pub fn ai_take_turn(monster_id: usize, fov: &FovMap, game: &mut Game, objects: &mut Vec<Object>)
    requires
        monster_id < old(objects)@.len(),
        turn_fits(world(old(objects)@), monster_id as int, fov@, old(game)@.inventory),
    ensures
        turn_taken(
            (world(old(objects)@), old(game)@),
            (world(final(objects)@), final(game)@),
            monster_id as int,
            fov@,
        ),
{
    let ghost before = (world(objects@), game@);
    let behaviour: u8 = match &objects[monster_id].ai {
        None => 0,
        Some(AI::Basic) => 1,
        Some(AI::Confused { previous_ai: _, num_turns }) => if *num_turns > 0 {
            2
        } else {
            3
        },
    };
    if behaviour == 1 {
        ai_basic(monster_id, fov, game, objects);
    } else if behaviour == 2 {
        let dx = random_range(-1, 2);
        let dy = random_range(-1, 2);
        ai_confused(monster_id, dx, dy, game, objects);
        assert(stumbled(before, (world(objects@), game@), monster_id as int, dx as int, dy as int));
    } else if behaviour == 3 {
        ai_confused(monster_id, 0, 0, game, objects);
        assert(stumbled(before, (world(objects@), game@), monster_id as int, 0, 0));
    } else {
        assert(world(objects@) =~= before.0);
    }
}

} // verus!
