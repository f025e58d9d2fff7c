//! The combat facet, and what death does to an entity.

use crate::colors::{dark_red, orange, red};
use crate::objects::game::Game;
use crate::objects::object::Object;
use crate::text::push_decimal;
use vstd::prelude::*;
use vstd::string::*;

verus! {

/// What happens to an entity when its hit points run out.
#[derive(Clone, Copy, Debug, PartialEq, Eq, Structural)]
pub enum DeathCallback {
    Player,
    Monster,
}

/// The combat facet of an entity.
///
/// `max_hp`, `base_defense` and `base_power` are the entity's own values;
/// what it fights with adds the bonuses of the equipment it wears.
#[derive(Clone, Copy, Debug, PartialEq, Eq, Structural)]
pub struct Fighter {
    pub max_hp: i32,
    pub hp: i32,
    pub base_defense: i32,
    pub base_power: i32,
    pub xp: i32,
    pub on_death: DeathCallback,
}

/// The player's death: the player turns into a corpse, and the log says so.
pub fn player_death(player: &mut Object, game: &mut Game)
    ensures
        final(player)@ == old(player)@.slain(DeathCallback::Player),
        final(game)@ == old(game)@.with_message(
            old(player)@.obituary(DeathCallback::Player).0,
            old(player)@.obituary(DeathCallback::Player).1,
        ),
{
    game.messages.add_str("You died!", red());
    player.char = '%';
    player.color = dark_red();
}

/// A monster's death: the monster becomes remains that block nothing and
/// neither fight nor think, and the log names the experience gained.
pub fn monster_death(monster: &mut Object, game: &mut Game)
    requires
        old(monster).fighter is Some,
    ensures
        final(monster)@ == old(monster)@.slain(DeathCallback::Monster),
        final(game)@ == old(game)@.with_message(
            old(monster)@.obituary(DeathCallback::Monster).0,
            old(monster)@.obituary(DeathCallback::Monster).1,
        ),
{
    let xp = match monster.fighter {
        Some(fighter) => fighter.xp,
        None => 0,
    };
    let mut line = String::from_str(monster.name.as_str());
    line.append(" is dead! You gain ");
    push_decimal(&mut line, xp);
    line.append(" experience points.");
    game.messages.add(line, orange());

    let mut name = String::from_str("remains of ");
    name.append(monster.name.as_str());
    monster.char = '%';
    monster.color = dark_red();
    monster.blocks = false;
    monster.fighter = None;
    monster.ai = None;
    monster.name = name;
}

impl DeathCallback {
    /// Runs the death policy on an entity that has just died.
    pub fn callback(self, object: &mut Object, game: &mut Game)
        requires
            self == DeathCallback::Monster ==> old(object).fighter is Some,
        ensures
            final(object)@ == old(object)@.slain(self),
            final(game)@ == old(game)@.with_message(
                old(object)@.obituary(self).0,
                old(object)@.obituary(self).1,
            ),
    {
        match self {
            DeathCallback::Player => player_death(object, game),
            DeathCallback::Monster => monster_death(object, game),
        }
    }
}

} // verus!
