//! Key presses and what they do to the turn.

use crate::constants::PLAYER;
use crate::objects::game::{Game, GameView};
use crate::objects::object::{world, Object, ObjectView};
use crate::objects::player::{player_move_or_attack, player_stepped, step_fits};
use vstd::prelude::*;

verus! {

/// What a key press did to the turn.
#[derive(Clone, Copy, Debug, PartialEq, Eq, Structural)]
pub enum PlayerAction {
    TookTurn,
    DidntTakeTurn,
    Exit,
}

/// The keys the game tells apart.
#[derive(Clone, Copy, Debug, PartialEq, Eq, Structural)]
pub enum KeyCode {
    Enter,
    Escape,
    Up,
    Down,
    Left,
    Right,
    Other,
}

/// A key press: which key, and whether Alt was held.
#[derive(Clone, Copy, Debug, PartialEq, Eq, Structural)]
pub struct Key {
    pub code: KeyCode,
    pub alt: bool,
}

impl Key {
    /// Whether the key press asks to switch between window and full screen.
    /// This never takes a turn.
    pub open spec fn spec_toggles_fullscreen(self) -> bool {
        self.code == KeyCode::Enter && self.alt
    }

    /// The step that the key press asks for, if it is an arrow key.
    pub open spec fn step(self) -> Option<(int, int)> {
        match self.code {
            KeyCode::Up => Some((0int, -1int)),
            KeyCode::Down => Some((0int, 1int)),
            KeyCode::Left => Some((-1int, 0int)),
            KeyCode::Right => Some((1int, 0int)),
            _ => None,
        }
    }

    /// How far to the right the key press asks to step.
    pub open spec fn dx(self) -> int {
        match self.step() {
            Some(by) => by.0,
            None => 0,
        }
    }

    /// How far down the key press asks to step.
    pub open spec fn dy(self) -> int {
        match self.step() {
            Some(by) => by.1,
            None => 0,
        }
    }

    /// Whether the key press makes a living player step: it is an arrow key
    /// and asks for nothing that comes first.
    pub open spec fn moves(self) -> bool {
        !self.spec_toggles_fullscreen() && self.step() is Some
    }

    /// What the key press does to the turn of a player who is alive or not.
    pub open spec fn action(self, player_alive: bool) -> PlayerAction {
        if self.spec_toggles_fullscreen() {
            PlayerAction::DidntTakeTurn
        } else if self.code == KeyCode::Escape {
            PlayerAction::Exit
        } else if self.step() is Some && player_alive {
            PlayerAction::TookTurn
        } else {
            PlayerAction::DidntTakeTurn
        }
    }

    /// Whether the key press asks to switch between window and full screen.
    #[verifier::when_used_as_spec(spec_toggles_fullscreen)]
    pub fn toggles_fullscreen(self) -> (b: bool)
        ensures
            b == self.spec_toggles_fullscreen(),
    {
        self.code == KeyCode::Enter && self.alt
    }
}

/// Whether the key press can be handled: there is a player, and a step it
/// asks of a living player can be carried out.
pub open spec fn key_fits(key: Key, objects: Seq<ObjectView>, inventory: Seq<ObjectView>) -> bool {
    &&& objects.len() > 0
    &&& (key.moves() && objects[0].alive) ==> step_fits(
        objects,
        inventory,
        key.dx(),
        key.dy(),
    )
}

/// Whether `after` is what handling the key press made of `before`: a step
/// of a living player, or nothing.
pub open spec fn key_handled(
    key: Key,
    before: (Seq<ObjectView>, GameView),
    after: (Seq<ObjectView>, GameView),
) -> bool {
    if key.moves() && before.0[0].alive {
        player_stepped(before, after, key.dx(), key.dy())
    } else {
        after == before
    }
}

/// Handles a key press.
///
/// Alt and Enter ask for a switch between window and full screen, which is
/// for the caller to carry out and takes no turn. Escape leaves the game.
/// An arrow key lets a living player step or attack, which takes a turn.
/// Everything else does nothing.
pub fn handle_keys(key: Key, game: &mut Game, objects: &mut Vec<Object>) -> (action: PlayerAction)
    requires
        key_fits(key, world(old(objects)@), old(game)@.inventory),
    ensures
        action == key.action(world(old(objects)@)[0].alive),
        key_handled(
            key,
            (world(old(objects)@), old(game)@),
            (world(final(objects)@), final(game)@),
        ),
{
    let player_alive = objects[PLAYER].alive;
    if key.toggles_fullscreen() {
        assert(world(objects@) =~= world(old(objects)@));
        return PlayerAction::DidntTakeTurn;
    }
    match (key.code, player_alive) {
        (KeyCode::Escape, _) => {
            assert(world(objects@) =~= world(old(objects)@));
            PlayerAction::Exit
        },
        (KeyCode::Up, true) => {
            player_move_or_attack(0, -1, game, objects);
            PlayerAction::TookTurn
        },
        (KeyCode::Down, true) => {
            player_move_or_attack(0, 1, game, objects);
            PlayerAction::TookTurn
        },
        (KeyCode::Left, true) => {
            player_move_or_attack(-1, 0, game, objects);
            PlayerAction::TookTurn
        },
        (KeyCode::Right, true) => {
            player_move_or_attack(1, 0, game, objects);
            PlayerAction::TookTurn
        },
        _ => {
            assert(world(objects@) =~= world(old(objects)@));
            PlayerAction::DidntTakeTurn
        },
    }
}

} // verus!
