//! The state of a run besides the entities of the current level.

use crate::colors::Color;
use crate::messages::Messages;
use crate::objects::object::{world, Object, ObjectView};
use crate::tiles::{grid, Tile, TileMap};
use vstd::prelude::*;

verus! {

/// Everything about a run besides the entities on the current level: the
/// level's tiles, the message log, what the player carries, and how deep the
/// player has come.
#[derive(Debug, PartialEq, Eq)]
pub struct Game {
    pub map: TileMap,
    pub messages: Messages,
    pub inventory: Vec<Object>,
    pub dungeon_level: u32,
}

/// The mathematical content of a [`Game`].
pub struct GameView {
    pub map: Seq<Seq<Tile>>,
    pub messages: Seq<(Seq<char>, Color)>,
    pub inventory: Seq<ObjectView>,
    pub dungeon_level: u32,
}

impl View for Game {
    type V = GameView;

    open spec fn view(&self) -> GameView {
        GameView {
            map: grid(self.map@),
            messages: self.messages@,
            inventory: world(self.inventory@),
            dungeon_level: self.dungeon_level,
        }
    }
}

impl GameView {
    /// The same game with `lines` appended to its message log.
    pub open spec fn with_messages(self, lines: Seq<(Seq<char>, Color)>) -> GameView {
        GameView { messages: self.messages + lines, ..self }
    }

    /// The same game with one more line in its message log.
    pub open spec fn with_message(self, text: Seq<char>, color: Color) -> GameView {
        GameView { messages: self.messages.push((text, color)), ..self }
    }
}

} // verus!
